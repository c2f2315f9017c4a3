//! The Client Info PDU: code page, flags, five counted UTF-16LE strings and
//! the optional extended block with the time zone.
use vstd::prelude::*;
use crate::ber::{reads_view, BerReader};
use crate::bytes::{to_array16, get_le16, get_le32, le16, le32, lemma_le16, lemma_le32, put_bytes, put_u16_le, put_u32_le};
use crate::error::{ErrorKind, PduError, Result};
use vstd::seq_lib::lemma_concat_associative;
use crate::unicode::{
    lemma_name_field_round_trip, lemma_units_bytes_len, lemma_units_of_bytes,
    name_field, parse_name_field, put_name_field, put_units, read_name_field,
    string_from_utf16, take_units, trim_trailing_zeros, trim_zeros, units_bytes, units_of,
    utf16_encode, utf16_units, utf16_valid,
};

verus! {

/// Client Info flags.
#[derive(Debug, Clone, Copy, PartialEq, Eq)]
pub struct ClientInfoFlags(pub u32);

impl ClientInfoFlags {
    pub const MOUSE: u32 = 0x0000_0001;
    pub const DISABLECTRLALTDEL: u32 = 0x0000_0002;
    pub const AUTOLOGON: u32 = 0x0000_0008;
    pub const UNICODE: u32 = 0x0000_0010;
    pub const MAXIMIZESHELL: u32 = 0x0000_0020;
    pub const LOGONNOTIFY: u32 = 0x0000_0040;
    pub const COMPRESSION: u32 = 0x0000_0080;
    pub const ENABLEWINDOWSKEY: u32 = 0x0000_0100;
    pub const REMOTECONSOLEAUDIO: u32 = 0x0000_2000;
    pub const FORCE_ENCRYPTED_CS_PDU: u32 = 0x0000_4000;
    pub const RAIL: u32 = 0x0000_8000;
    pub const LOGONERRORS: u32 = 0x0001_0000;
    pub const MOUSE_HAS_WHEEL: u32 = 0x0002_0000;
    pub const PASSWORD_IS_SC_PIN: u32 = 0x0004_0000;
    pub const NOAUDIOPLAYBACK: u32 = 0x0008_0000;
    pub const USING_SAVED_CREDS: u32 = 0x0010_0000;
    pub const AUDIOCAPTURE: u32 = 0x0020_0000;
    pub const VIDEO_DISABLE: u32 = 0x0040_0000;
    pub const HIDEF_RAIL_SUPPORTED: u32 = 0x0200_0000;
    /// Every known flag.
    pub const ALL: u32 = 0x027F_E1FB;

    /// Flags with the given bits.
    pub fn new(bits: u32) -> (r: Self)
        ensures
            r.0 == bits,
    {
        ClientInfoFlags(bits)
    }

    /// The bits.
    pub fn bits(&self) -> (r: u32)
        ensures
            r == self.0,
    {
        self.0
    }

    /// The known flags among `bits`.
    pub fn from_bits_truncate(bits: u32) -> (r: Self)
        ensures
            r.0 == bits & 0x027F_E1FB,
    {
        ClientInfoFlags(bits & Self::ALL)
    }

    /// Whether every flag of `other` is set.
    pub fn contains(&self, other: u32) -> (r: bool)
        ensures
            r == (self.0 & other == other),
    {
        self.0 & other == other
    }
}

/// Performance flags of the extended block.
#[derive(Debug, Clone, Copy, PartialEq, Eq)]
pub struct PerformanceFlags(pub u32);

impl PerformanceFlags {
    pub const DISABLE_WALLPAPER: u32 = 0x0000_0001;
    pub const DISABLE_FULLWINDOWDRAG: u32 = 0x0000_0002;
    pub const DISABLE_MENUANIMATIONS: u32 = 0x0000_0004;
    pub const DISABLE_THEMING: u32 = 0x0000_0008;
    pub const DISABLE_CURSOR_SHADOW: u32 = 0x0000_0020;
    pub const DISABLE_CURSORSETTINGS: u32 = 0x0000_0040;
    pub const ENABLE_FONT_SMOOTHING: u32 = 0x0000_0080;
    pub const ENABLE_DESKTOP_COMPOSITION: u32 = 0x0000_0100;
    /// Every known flag.
    pub const ALL: u32 = 0x0000_01EF;

    /// Flags with the given bits.
    pub fn new(bits: u32) -> (r: Self)
        ensures
            r.0 == bits,
    {
        PerformanceFlags(bits)
    }

    /// The bits.
    pub fn bits(&self) -> (r: u32)
        ensures
            r == self.0,
    {
        self.0
    }

    /// The known flags among `bits`.
    pub fn from_bits_truncate(bits: u32) -> (r: Self)
        ensures
            r.0 == bits & 0x01EF,
    {
        PerformanceFlags(bits & Self::ALL)
    }

    /// Whether every flag of `other` is set.
    pub fn contains(&self, other: u32) -> (r: bool)
        ensures
            r == (self.0 & other == other),
    {
        self.0 & other == other
    }
}

// ---------------------------------------------------------------------------
// Counted strings

/// A counted string: its UTF-16 units, then a zero unit.
pub open spec fn counted_bytes(u: Seq<u16>) -> Seq<u8> {
    units_bytes(u) + le16(0)
}

/// The byte count of a counted string, terminator included.
pub open spec fn counted_len(u: Seq<u16>) -> u16 {
    ((u.len() + 1) * 2) as u16
}

/// A string of `cb` bytes: `cb / 2` units less the trailing zeros, which must
/// be valid UTF-16.
#[verifier::opaque]
pub open spec fn parse_counted(s: Seq<u8>, cb: u16) -> core::result::Result<(Seq<u16>, int), ErrorKind> {
    let n = (cb / 2) as int;
    if cb == 0 {
        Ok((Seq::empty(), 0))
    } else if s.len() < 2 * n {
        Err(ErrorKind::InsufficientData { needed: (2 * n) as usize, available: s.len() as usize })
    } else if !utf16_valid(trim_zeros(units_of(s.take(2 * n)))) {
        Err(ErrorKind::ParseError)
    } else {
        Ok((trim_zeros(units_of(s.take(2 * n))), 2 * n))
    }
}

/// Appends the units of `s` and a zero unit.
pub fn write_unicode_string(buffer: &mut Vec<u8>, s: &str) -> (r: Result<()>)
    ensures
        r is Ok,
        final(buffer)@ == old(buffer)@ + counted_bytes(utf16_encode(s@)),
{
    let units = utf16_units(s);
    put_units(buffer, units.as_slice());
    put_u16_le(buffer, 0);
    assert(final(buffer)@ =~= old(buffer)@ + counted_bytes(utf16_encode(s@)));
    Ok(())
}

/// The byte count of `s` as a counted string.
pub fn encode_string_length(s: &str) -> (r: u16)
    requires
        utf16_encode(s@).len() <= 32766,
    ensures
        r == counted_len(utf16_encode(s@)),
{
    let units = utf16_units(s);
    ((units.len() + 1) * 2) as u16
}

/// Reads a string of `byte_count` bytes.
pub fn read_unicode_string(buffer: &mut BerReader, byte_count: u16) -> (r: Result<String>)
    ensures
        crate::ber::consumed(*old(buffer), *final(buffer)),
        match parse_counted(old(buffer).rest(), byte_count) {
            Ok((u, n)) => r is Ok && utf16_encode(r->Ok_0@) == u && final(buffer).rest() == old(buffer).rest().skip(n),
            Err(k) => r is Err && r->Err_0.spec_kind() == k,
        },
{
    reveal(parse_counted);
    if byte_count == 0 {
        let e = String::new();
        assert(utf16_encode(e@) =~= Seq::<u16>::empty()) by {
            assert(e@.len() == 0);
        }
        assert(old(buffer).rest().skip(0) =~= old(buffer).rest());
        return Ok(e);
    }
    let n = (byte_count / 2) as usize;
    if buffer.remaining() < 2 * n {
        return Err(PduError::InsufficientData { needed: 2 * n, available: buffer.remaining() });
    }
    let mut units = take_units(buffer, n);
    trim_trailing_zeros(&mut units);
    match string_from_utf16(units.as_slice()) {
        Some(s) => Ok(s),
        None => Err(PduError::parse("invalid UTF-16 string")),
    }
}

// ---------------------------------------------------------------------------
// Time zone

/// What a [`TimeZoneInformation`] holds; the names as UTF-16 units.
pub struct TimeZoneModel {
    pub bias: u32,
    pub standard_name: Seq<u16>,
    pub standard_date: Seq<u8>,
    pub standard_bias: u32,
    pub daylight_name: Seq<u16>,
    pub daylight_date: Seq<u8>,
    pub daylight_bias: u32,
}

/// The 172-byte time zone structure.
#[derive(Debug, Clone, PartialEq, Eq)]
pub struct TimeZoneInformation {
    pub bias: u32,
    pub standard_name: String,
    pub standard_date: [u8; 16],
    pub standard_bias: u32,
    pub daylight_name: String,
    pub daylight_date: [u8; 16],
    pub daylight_bias: u32,
}

impl View for TimeZoneInformation {
    type V = TimeZoneModel;

    open spec fn view(&self) -> TimeZoneModel {
        TimeZoneModel {
            bias: self.bias,
            standard_name: utf16_encode(self.standard_name@),
            standard_date: self.standard_date@,
            standard_bias: self.standard_bias,
            daylight_name: utf16_encode(self.daylight_name@),
            daylight_date: self.daylight_date@,
            daylight_bias: self.daylight_bias,
        }
    }
}

impl TimeZoneModel {
    /// Bias, standard name (at most 31 units), standard date, standard bias,
    /// daylight name, daylight date, daylight bias.
    pub open spec fn spec_bytes(&self) -> Seq<u8> {
        le32(self.bias) + name_field(self.standard_name, 31) + self.standard_date + le32(
            self.standard_bias,
        ) + name_field(self.daylight_name, 31) + self.daylight_date + le32(self.daylight_bias)
    }
}

impl TimeZoneInformation {
    pub const SIZE: usize = 172;

    /// What the decoder makes of `s`.
    #[verifier::opaque]
    pub open spec fn spec_parse(s: Seq<u8>) -> core::result::Result<(TimeZoneModel, int), ErrorKind> {
        if s.len() < 172 {
            Err(ErrorKind::InsufficientData { needed: 172, available: s.len() as usize })
        } else {
            Ok((
                TimeZoneModel {
                    bias: get_le32(s, 0),
                    standard_name: parse_name_field(s.subrange(4, 68)),
                    standard_date: s.subrange(68, 84),
                    standard_bias: get_le32(s, 84),
                    daylight_name: parse_name_field(s.subrange(88, 152)),
                    daylight_date: s.subrange(152, 168),
                    daylight_bias: get_le32(s, 168),
                },
                172,
            ))
        }
    }

    /// UTC: zero biases, empty names and dates.
    pub fn utc() -> (r: Self)
        ensures
            r@ == (TimeZoneModel {
                bias: 0,
                standard_name: Seq::empty(),
                standard_date: Seq::new(16, |i: int| 0u8),
                standard_bias: 0,
                daylight_name: Seq::empty(),
                daylight_date: Seq::new(16, |i: int| 0u8),
                daylight_bias: 0,
            }),
    {
        let a = String::new();
        let b = String::new();
        assert(utf16_encode(a@) =~= Seq::<u16>::empty()) by {
            assert(a@.len() == 0);
        }
        assert(utf16_encode(b@) =~= Seq::<u16>::empty()) by {
            assert(b@.len() == 0);
        }
        let r = TimeZoneInformation {
            bias: 0,
            standard_name: a,
            standard_date: [0; 16],
            standard_bias: 0,
            daylight_name: b,
            daylight_date: [0; 16],
            daylight_bias: 0,
        };
        assert(r.standard_date@ =~= Seq::new(16, |i: int| 0u8));
        assert(r.daylight_date@ =~= Seq::new(16, |i: int| 0u8));
        r
    }

    /// Appends the 172 bytes.
    pub fn encode(&self, buffer: &mut Vec<u8>) -> (r: Result<()>)
        ensures
            r is Ok,
            final(buffer)@ == old(buffer)@ + self@.spec_bytes(),
    {
        put_u32_le(buffer, self.bias);
        put_name_field(buffer, self.standard_name.as_str(), 31);
        put_bytes(buffer, self.standard_date.as_slice());
        put_u32_le(buffer, self.standard_bias);
        put_name_field(buffer, self.daylight_name.as_str(), 31);
        put_bytes(buffer, self.daylight_date.as_slice());
        put_u32_le(buffer, self.daylight_bias);
        assert(final(buffer)@ =~= old(buffer)@ + self@.spec_bytes());
        Ok(())
    }

    /// Reads the 172 bytes.
    pub fn decode(buffer: &mut BerReader) -> (r: Result<Self>)
        ensures
            crate::ber::consumed(*old(buffer), *final(buffer)),
            reads_view(r, Self::spec_parse(old(buffer).rest()), old(buffer).rest(), final(buffer).rest()),
    {
        reveal(TimeZoneInformation::spec_parse);
        if buffer.remaining() < 172 {
            return Err(PduError::InsufficientData { needed: 172, available: buffer.remaining() });
        }
        let ghost s = buffer.rest();
        let bias = buffer.take_u32_le();
        assert(buffer.rest() =~= s.skip(4));
        let standard_name = read_name_field(buffer);
        assert(s.skip(4).take(64) =~= s.subrange(4, 68));
        assert(buffer.rest() =~= s.skip(68));
        let sd = buffer.take_bytes(16);
        assert(sd@ =~= s.subrange(68, 84));
        assert(buffer.rest() =~= s.skip(84));
        let standard_bias = buffer.take_u32_le();
        assert(buffer.rest() =~= s.skip(88));
        let daylight_name = read_name_field(buffer);
        assert(s.skip(88).take(64) =~= s.subrange(88, 152));
        assert(buffer.rest() =~= s.skip(152));
        let dd = buffer.take_bytes(16);
        assert(dd@ =~= s.subrange(152, 168));
        assert(buffer.rest() =~= s.skip(168));
        let daylight_bias = buffer.take_u32_le();
        assert(buffer.rest() =~= s.skip(172));
        let r = TimeZoneInformation {
            bias,
            standard_name,
            standard_date: to_array16(&sd),
            standard_bias,
            daylight_name,
            daylight_date: to_array16(&dd),
            daylight_bias,
        };
        assert(r@ =~= Self::spec_parse(s)->Ok_0.0);
        Ok(r)
    }
}

impl Default for TimeZoneInformation {
    fn default() -> (r: Self)
        ensures
            r@.bias == 0,
    {
        Self::utc()
    }
}

// ---------------------------------------------------------------------------
// Extended info

/// What an [`ExtendedInfo`] holds; strings as UTF-16 units.
pub struct ExtendedInfoModel {
    pub client_address_family: u16,
    pub client_address: Seq<u16>,
    pub client_dir: Seq<u16>,
    pub client_time_zone: TimeZoneModel,
    pub client_session_id: u32,
    pub performance_flags: u32,
}

/// The extended block of a Client Info PDU.
#[derive(Debug, Clone, PartialEq, Eq)]
pub struct ExtendedInfo {
    /// 2 for IPv4, 23 for IPv6.
    pub client_address_family: u16,
    pub client_address: String,
    pub client_dir: String,
    pub client_time_zone: TimeZoneInformation,
    pub client_session_id: u32,
    pub performance_flags: PerformanceFlags,
}

impl View for ExtendedInfo {
    type V = ExtendedInfoModel;

    open spec fn view(&self) -> ExtendedInfoModel {
        ExtendedInfoModel {
            client_address_family: self.client_address_family,
            client_address: utf16_encode(self.client_address@),
            client_dir: utf16_encode(self.client_dir@),
            client_time_zone: self.client_time_zone@,
            client_session_id: self.client_session_id,
            performance_flags: self.performance_flags.0,
        }
    }
}

impl ExtendedInfoModel {
    /// Family, counted address, counted directory, time zone, session id,
    /// performance flags and an empty auto-reconnect cookie.
    pub open spec fn spec_bytes(&self) -> Seq<u8> {
        le16(self.client_address_family) + le16(counted_len(self.client_address)) + counted_bytes(
            self.client_address,
        ) + le16(counted_len(self.client_dir)) + counted_bytes(self.client_dir)
            + self.client_time_zone.spec_bytes() + le32(self.client_session_id) + le32(
            self.performance_flags,
        ) + le16(0)
    }
}

impl ExtendedInfo {
    /// Appends the extended block, with an empty auto-reconnect cookie.
    pub fn encode(&self, buffer: &mut Vec<u8>) -> (r: Result<()>)
        requires
            self@.client_address.len() <= 32766,
            self@.client_dir.len() <= 32766,
        ensures
            r is Ok,
            final(buffer)@ == old(buffer)@ + self@.spec_bytes(),
    {
        put_u16_le(buffer, self.client_address_family);
        put_u16_le(buffer, encode_string_length(self.client_address.as_str()));
        let _ = write_unicode_string(buffer, self.client_address.as_str());
        put_u16_le(buffer, encode_string_length(self.client_dir.as_str()));
        let _ = write_unicode_string(buffer, self.client_dir.as_str());
        let _ = self.client_time_zone.encode(buffer);
        put_u32_le(buffer, self.client_session_id);
        put_u32_le(buffer, self.performance_flags.0);
        put_u16_le(buffer, 0);
        assert(final(buffer)@ =~= old(buffer)@ + self@.spec_bytes());
        Ok(())
    }
}

/// The view of an optional extended block.
pub open spec fn ext_view(e: Option<ExtendedInfo>) -> Option<ExtendedInfoModel> {
    match e {
        Some(x) => Some(x@),
        None => None,
    }
}

/// The auto-reconnect cookie at the end of the extended block: its length,
/// and as many of its bytes as are there. Nothing when the length is missing.
pub open spec fn cookie_skip(s: Seq<u8>) -> int {
    if s.len() < 2 {
        0
    } else if get_le16(s, 0) as int <= s.len() - 2 {
        2 + get_le16(s, 0)
    } else {
        s.len() as int
    }
}

/// What the extended-block decoder makes of `s`: nothing at all when not even
/// the address family is there.
#[verifier::opaque]
pub open spec fn parse_ext(s: Seq<u8>) -> core::result::Result<(Option<ExtendedInfoModel>, int), ErrorKind> {
    if s.len() < 2 {
        Ok((None, 0))
    } else if s.len() < 4 {
        Err(ErrorKind::InsufficientData { needed: 2, available: (s.len() - 2) as usize })
    } else {
        match parse_counted(s.skip(4), get_le16(s, 2)) {
            Err(k) => Err(k),
            Ok((a, n1)) => {
                let t1 = s.skip(4).skip(n1);
                if t1.len() < 2 {
                    Err(ErrorKind::InsufficientData { needed: 2, available: t1.len() as usize })
                } else {
                    match parse_counted(t1.skip(2), get_le16(t1, 0)) {
                        Err(k) => Err(k),
                        Ok((d, n2)) => {
                            let t2 = t1.skip(2).skip(n2);
                            match TimeZoneInformation::spec_parse(t2) {
                                Err(k) => Err(k),
                                Ok((tz, _)) => {
                                    let t3 = t2.skip(172);
                                    if t3.len() < 8 {
                                        Err(ErrorKind::InsufficientData { needed: 8, available: t3.len() as usize })
                                    } else {
                                        Ok((
                                            Some(ExtendedInfoModel {
                                                client_address_family: get_le16(s, 0),
                                                client_address: a,
                                                client_dir: d,
                                                client_time_zone: tz,
                                                client_session_id: get_le32(t3, 0),
                                                performance_flags: get_le32(t3, 4) & 0x01EF,
                                            }),
                                            4 + n1 + 2 + n2 + 172 + 8 + cookie_skip(t3.skip(8)),
                                        ))
                                    }
                                },
                            }
                        },
                    }
                }
            },
        }
    }
}

/// Reads the extended block if its first field is there.
#[verifier::spinoff_prover]
#[verifier::rlimit(100)]
fn read_extended(buffer: &mut BerReader) -> (r: Result<Option<ExtendedInfo>>)
    ensures
        crate::ber::consumed(*old(buffer), *final(buffer)),
        match parse_ext(old(buffer).rest()) {
            Ok((v, n)) => r is Ok && ext_view(r->Ok_0) == v && 0 <= n <= old(buffer).rest().len() && final(buffer).rest() == old(buffer).rest().skip(n),
            Err(k) => r is Err && r->Err_0.spec_kind() == k,
        },
{
    reveal(parse_ext);
    reveal(TimeZoneInformation::spec_parse);
    let ghost s = buffer.rest();
    if buffer.remaining() < 2 {
        assert(s.skip(0) =~= s);
        return Ok(None);
    }
    let client_address_family = buffer.take_u16_le();
    if buffer.remaining() < 2 {
        return Err(PduError::InsufficientData { needed: 2, available: buffer.remaining() });
    }
    let cb_address = buffer.take_u16_le();
    assert(buffer.rest() =~= s.skip(4));
    let client_address = read_unicode_string(buffer, cb_address)?;
    let ghost n1 = parse_counted(s.skip(4), cb_address)->Ok_0.1;
    proof {
        lemma_counted_bounds(s.skip(4), cb_address);
    }
    let ghost t1 = s.skip(4).skip(n1);
    if buffer.remaining() < 2 {
        return Err(PduError::InsufficientData { needed: 2, available: buffer.remaining() });
    }
    let cb_dir = buffer.take_u16_le();
    let client_dir = read_unicode_string(buffer, cb_dir)?;
    let ghost n2 = parse_counted(t1.skip(2), cb_dir)->Ok_0.1;
    proof {
        lemma_counted_bounds(t1.skip(2), cb_dir);
    }
    let ghost t2 = t1.skip(2).skip(n2);
    let client_time_zone = TimeZoneInformation::decode(buffer)?;
    let ghost t3 = t2.skip(172);
    if buffer.remaining() < 8 {
        return Err(PduError::InsufficientData { needed: 8, available: buffer.remaining() });
    }
    let client_session_id = buffer.take_u32_le();
    let perf = buffer.take_u32_le();
    assert(t3.skip(4).skip(4) =~= t3.skip(8));
    let ghost t4 = t3.skip(8);
    if buffer.remaining() >= 2 {
        let cb = buffer.take_u16_le() as usize;
        let k = if cb <= buffer.remaining() { cb } else { buffer.remaining() };
        let _ = buffer.take_bytes(k);
        assert(t4.skip(2).skip(k as int) =~= t4.skip(cookie_skip(t4)));
    } else {
        assert(t4.skip(0) =~= t4);
    }
    proof {
        assert(s.skip(4).skip(n1).skip(2).skip(n2).skip(172).skip(8).skip(cookie_skip(t4))
            =~= s.skip(4 + n1 + 2 + n2 + 172 + 8 + cookie_skip(t4)));
    }
    let e = ExtendedInfo {
        client_address_family,
        client_address,
        client_dir,
        client_time_zone,
        client_session_id,
        performance_flags: PerformanceFlags::from_bits_truncate(perf),
    };
    Ok(Some(e))
}

/// Five counted strings one after another, with the given byte counts.
#[verifier::opaque]
pub open spec fn parse_strings(b0: Seq<u8>, c1: u16, c2: u16, c3: u16, c4: u16, c5: u16) -> core::result::Result<
    ((Seq<u16>, Seq<u16>, Seq<u16>, Seq<u16>, Seq<u16>), int),
    ErrorKind,
> {
    match parse_counted(b0, c1) {
        Err(k) => Err(k),
        Ok((d, n1)) => {
            let b1 = b0.skip(n1);
            match parse_counted(b1, c2) {
                Err(k) => Err(k),
                Ok((u, n2)) => {
                    let b2 = b1.skip(n2);
                    match parse_counted(b2, c3) {
                        Err(k) => Err(k),
                        Ok((p, n3)) => {
                            let b3 = b2.skip(n3);
                            match parse_counted(b3, c4) {
                                Err(k) => Err(k),
                                Ok((a, n4)) => {
                                    let b4 = b3.skip(n4);
                                    match parse_counted(b4, c5) {
                                        Err(k) => Err(k),
                                        Ok((w, n5)) => Ok(((d, u, p, a, w), n1 + n2 + n3 + n4 + n5)),
                                    }
                                },
                            }
                        },
                    }
                },
            }
        },
    }
}

/// A counted string takes an even count of bytes, no more than there are.
proof fn lemma_counted_bounds(s: Seq<u8>, cb: u16)
    requires
        parse_counted(s, cb) is Ok,
    ensures
        0 <= parse_counted(s, cb)->Ok_0.1 <= s.len(),
{
    reveal(parse_counted);
}

/// Reads five counted strings.
#[verifier::spinoff_prover]
#[verifier::rlimit(100)]
fn read_strings(buffer: &mut BerReader, c1: u16, c2: u16, c3: u16, c4: u16, c5: u16) -> (r: Result<(String, String, String, String, String)>)
    ensures
        crate::ber::consumed(*old(buffer), *final(buffer)),
        match parse_strings(old(buffer).rest(), c1, c2, c3, c4, c5) {
            Ok((v, n)) => {
                &&& r is Ok
                &&& utf16_encode(r->Ok_0.0@) == v.0
                &&& utf16_encode(r->Ok_0.1@) == v.1
                &&& utf16_encode(r->Ok_0.2@) == v.2
                &&& utf16_encode(r->Ok_0.3@) == v.3
                &&& utf16_encode(r->Ok_0.4@) == v.4
                &&& 0 <= n <= old(buffer).rest().len()
                &&& final(buffer).rest() == old(buffer).rest().skip(n)
            },
            Err(k) => r is Err && r->Err_0.spec_kind() == k,
        },
{
    reveal(parse_strings);
    let ghost b0 = buffer.rest();
    let d = read_unicode_string(buffer, c1)?;
    let ghost n1 = parse_counted(b0, c1)->Ok_0.1;
    proof { lemma_counted_bounds(b0, c1); }
    let ghost b1 = b0.skip(n1);
    let u = read_unicode_string(buffer, c2)?;
    let ghost n2 = parse_counted(b1, c2)->Ok_0.1;
    proof { lemma_counted_bounds(b1, c2); }
    let ghost b2 = b1.skip(n2);
    let p = read_unicode_string(buffer, c3)?;
    let ghost n3 = parse_counted(b2, c3)->Ok_0.1;
    proof { lemma_counted_bounds(b2, c3); }
    let ghost b3 = b2.skip(n3);
    let a = read_unicode_string(buffer, c4)?;
    let ghost n4 = parse_counted(b3, c4)->Ok_0.1;
    proof { lemma_counted_bounds(b3, c4); }
    let ghost b4 = b3.skip(n4);
    let w = read_unicode_string(buffer, c5)?;
    let ghost n5 = parse_counted(b4, c5)->Ok_0.1;
    proof {
        lemma_counted_bounds(b4, c5);
        assert(b4.skip(n5) =~= b0.skip(n1 + n2 + n3 + n4 + n5));
    }
    Ok((d, u, p, a, w))
}

// ---------------------------------------------------------------------------
// The PDU

/// What a [`ClientInfoPdu`] holds; strings as UTF-16 units.
pub struct ClientInfoModel {
    pub code_page: u32,
    pub flags: u32,
    pub domain: Seq<u16>,
    pub user_name: Seq<u16>,
    pub password: Seq<u16>,
    pub alternate_shell: Seq<u16>,
    pub working_dir: Seq<u16>,
    pub extended_info: Option<ExtendedInfoModel>,
}

/// The Client Info PDU.
#[derive(Debug, Clone, PartialEq, Eq)]
pub struct ClientInfoPdu {
    pub code_page: u32,
    pub flags: ClientInfoFlags,
    pub domain: String,
    pub user_name: String,
    pub password: String,
    pub alternate_shell: String,
    pub working_dir: String,
    pub extended_info: Option<ExtendedInfo>,
}

impl View for ClientInfoPdu {
    type V = ClientInfoModel;

    open spec fn view(&self) -> ClientInfoModel {
        ClientInfoModel {
            code_page: self.code_page,
            flags: self.flags.0,
            domain: utf16_encode(self.domain@),
            user_name: utf16_encode(self.user_name@),
            password: utf16_encode(self.password@),
            alternate_shell: utf16_encode(self.alternate_shell@),
            working_dir: utf16_encode(self.working_dir@),
            extended_info: ext_view(self.extended_info),
        }
    }
}

impl ClientInfoModel {
    /// The five byte counts.
    pub open spec fn counts_bytes(&self) -> Seq<u8> {
        le16(counted_len(self.domain)) + le16(counted_len(self.user_name)) + le16(
            counted_len(self.password),
        ) + le16(counted_len(self.alternate_shell)) + le16(counted_len(self.working_dir))
    }

    /// The five counted strings.
    pub open spec fn strings_bytes(&self) -> Seq<u8> {
        counted_bytes(self.domain) + counted_bytes(self.user_name) + counted_bytes(self.password)
            + counted_bytes(self.alternate_shell) + counted_bytes(self.working_dir)
    }

    /// Code page, flags, the five byte counts, the five strings, and the
    /// extended block if any.
    pub open spec fn spec_bytes(&self) -> Seq<u8> {
        le32(self.code_page) + le32(self.flags) + self.counts_bytes() + self.strings_bytes()
            + match self.extended_info {
            Some(e) => e.spec_bytes(),
            None => Seq::empty(),
        }
    }

    /// Every string fits its 16-bit byte count.
    pub open spec fn wf(&self) -> bool {
        &&& self.domain.len() <= 32766
        &&& self.user_name.len() <= 32766
        &&& self.password.len() <= 32766
        &&& self.alternate_shell.len() <= 32766
        &&& self.working_dir.len() <= 32766
        &&& self.extended_info matches Some(e) ==> e.client_address.len() <= 32766
            && e.client_dir.len() <= 32766
    }
}

impl ClientInfoPdu {
    /// What the decoder makes of `s`: flags are truncated to the known ones,
    /// and the extended block is there exactly when bytes are left for its
    /// first field.
    pub open spec fn spec_parse(s: Seq<u8>) -> core::result::Result<(ClientInfoModel, int), ErrorKind> {
        if s.len() < 18 {
            Err(ErrorKind::InsufficientData { needed: 18, available: s.len() as usize })
        } else {
            match parse_strings(
                s.skip(18),
                get_le16(s, 8),
                get_le16(s, 10),
                get_le16(s, 12),
                get_le16(s, 14),
                get_le16(s, 16),
            ) {
                Err(k) => Err(k),
                Ok((st, n)) => match parse_ext(s.skip(18).skip(n)) {
                    Err(k) => Err(k),
                    Ok((e, m)) => Ok((
                        ClientInfoModel {
                            code_page: get_le32(s, 0),
                            flags: get_le32(s, 4) & 0x027F_E1FB,
                            domain: st.0,
                            user_name: st.1,
                            password: st.2,
                            alternate_shell: st.3,
                            working_dir: st.4,
                            extended_info: e,
                        },
                        18 + n + m,
                    )),
                },
            }
        }
    }

    /// Code page 0, the usual logon flags (0x173), empty domain, shell and
    /// directory, no extended block.
    pub fn new(user_name: String, password: String) -> (r: Self)
        ensures
            r@ == (ClientInfoModel {
                code_page: 0,
                flags: 0x173,
                domain: Seq::empty(),
                user_name: utf16_encode(user_name@),
                password: utf16_encode(password@),
                alternate_shell: Seq::empty(),
                working_dir: Seq::empty(),
                extended_info: None,
            }),
    {
        let flags = ClientInfoFlags(
            ClientInfoFlags::MOUSE | ClientInfoFlags::UNICODE | ClientInfoFlags::LOGONNOTIFY
                | ClientInfoFlags::MAXIMIZESHELL | ClientInfoFlags::ENABLEWINDOWSKEY
                | ClientInfoFlags::DISABLECTRLALTDEL,
        );
        assert(0x1u32 | 0x10u32 | 0x40u32 | 0x20u32 | 0x100u32 | 0x2u32 == 0x173u32) by (bit_vector);
        let domain = String::new();
        let alternate_shell = String::new();
        let working_dir = String::new();
        proof {
            assert(domain@.len() == 0 && alternate_shell@.len() == 0 && working_dir@.len() == 0);
            assert(utf16_encode(domain@) =~= Seq::<u16>::empty());
            assert(utf16_encode(alternate_shell@) =~= Seq::<u16>::empty());
            assert(utf16_encode(working_dir@) =~= Seq::<u16>::empty());
        }
        ClientInfoPdu {
            code_page: 0,
            flags,
            domain,
            user_name,
            password,
            alternate_shell,
            working_dir,
            extended_info: None,
        }
    }

    /// The same PDU with the given extended block.
    pub fn with_extended_info(self, extended_info: ExtendedInfo) -> (r: Self)
        ensures
            r@ == (ClientInfoModel { extended_info: Some(extended_info@), ..self@ }),
    {
        let mut r = self;
        r.extended_info = Some(extended_info);
        r
    }

    /// The same PDU with the given domain.
    pub fn with_domain(self, domain: String) -> (r: Self)
        ensures
            r@ == (ClientInfoModel { domain: utf16_encode(domain@), ..self@ }),
    {
        let mut r = self;
        r.domain = domain;
        r
    }

    fn encode_counts(&self, buffer: &mut Vec<u8>)
        requires
            self@.wf(),
        ensures
            final(buffer)@ == old(buffer)@ + self@.counts_bytes(),
    {
        put_u16_le(buffer, encode_string_length(self.domain.as_str()));
        put_u16_le(buffer, encode_string_length(self.user_name.as_str()));
        put_u16_le(buffer, encode_string_length(self.password.as_str()));
        put_u16_le(buffer, encode_string_length(self.alternate_shell.as_str()));
        put_u16_le(buffer, encode_string_length(self.working_dir.as_str()));
        assert(final(buffer)@ =~= old(buffer)@ + self@.counts_bytes());
    }

    fn encode_strings(&self, buffer: &mut Vec<u8>)
        ensures
            final(buffer)@ == old(buffer)@ + self@.strings_bytes(),
    {
        let _ = write_unicode_string(buffer, self.domain.as_str());
        let _ = write_unicode_string(buffer, self.user_name.as_str());
        let _ = write_unicode_string(buffer, self.password.as_str());
        let _ = write_unicode_string(buffer, self.alternate_shell.as_str());
        let _ = write_unicode_string(buffer, self.working_dir.as_str());
        assert(final(buffer)@ =~= old(buffer)@ + self@.strings_bytes());
    }

    /// Appends the PDU.
    pub fn encode(&self, buffer: &mut Vec<u8>) -> (r: Result<()>)
        requires
            self@.wf(),
        ensures
            r is Ok,
            final(buffer)@ == old(buffer)@ + self@.spec_bytes(),
    {
        put_u32_le(buffer, self.code_page);
        put_u32_le(buffer, self.flags.0);
        self.encode_counts(buffer);
        self.encode_strings(buffer);
        let ghost mid = buffer@;
        match &self.extended_info {
            Some(e) => {
                let _ = e.encode(buffer);
            },
            None => {},
        }
        assert(final(buffer)@ =~= old(buffer)@ + self@.spec_bytes());
        Ok(())
    }

    /// Reads the PDU.
    pub fn decode(buffer: &mut BerReader) -> (r: Result<Self>)
        ensures
            crate::ber::consumed(*old(buffer), *final(buffer)),
            reads_view(r, Self::spec_parse(old(buffer).rest()), old(buffer).rest(), final(buffer).rest()),
    {
        if buffer.remaining() < 18 {
            return Err(PduError::InsufficientData { needed: 18, available: buffer.remaining() });
        }
        let ghost s = buffer.rest();
        let code_page = buffer.take_u32_le();
        assert(buffer.rest() =~= s.skip(4));
        let flags = buffer.take_u32_le();
        assert(buffer.rest() =~= s.skip(8));
        let cb_domain = buffer.take_u16_le();
        assert(buffer.rest() =~= s.skip(10));
        let cb_user = buffer.take_u16_le();
        assert(buffer.rest() =~= s.skip(12));
        let cb_password = buffer.take_u16_le();
        assert(buffer.rest() =~= s.skip(14));
        let cb_shell = buffer.take_u16_le();
        assert(buffer.rest() =~= s.skip(16));
        let cb_dir = buffer.take_u16_le();
        assert(buffer.rest() =~= s.skip(18));
        let (domain, user_name, password, alternate_shell, working_dir) = read_strings(
            buffer,
            cb_domain,
            cb_user,
            cb_password,
            cb_shell,
            cb_dir,
        )?;
        let ghost n = parse_strings(s.skip(18), cb_domain, cb_user, cb_password, cb_shell, cb_dir)->Ok_0.1;
        let extended_info = read_extended(buffer)?;
        let ghost m = parse_ext(s.skip(18).skip(n))->Ok_0.1;
        assert(s.skip(18).skip(n).skip(m) =~= s.skip(18 + n + m));
        Ok(ClientInfoPdu {
            code_page,
            flags: ClientInfoFlags::from_bits_truncate(flags),
            domain,
            user_name,
            password,
            alternate_shell,
            working_dir,
            extended_info,
        })
    }

    /// Length of the encoding.
    pub fn size(&self) -> (n: usize)
        requires
            self@.wf(),
        ensures
            n == self@.spec_bytes().len(),
    {
        let mut v: Vec<u8> = Vec::new();
        let _ = self.encode(&mut v);
        v.len()
    }
}

impl TimeZoneModel {
    /// A time zone with dates of 16 bytes and names of at most 31 nonzero
    /// UTF-16 units is read back as written.
    pub proof fn lemma_round_trip(self, tail: Seq<u8>)
        requires
            self.standard_date.len() == 16,
            self.daylight_date.len() == 16,
            self.standard_name.len() <= 31,
            self.daylight_name.len() <= 31,
            utf16_valid(self.standard_name),
            utf16_valid(self.daylight_name),
            forall|i: int| 0 <= i < self.standard_name.len() ==> self.standard_name[i] != 0,
            forall|i: int| 0 <= i < self.daylight_name.len() ==> self.daylight_name[i] != 0,
        ensures
            TimeZoneInformation::spec_parse(self.spec_bytes() + tail) == Ok::<(TimeZoneModel, int), ErrorKind>((self, 172)),
    {
        reveal(TimeZoneInformation::spec_parse);
        let s = self.spec_bytes() + tail;
        lemma_name_field_round_trip(self.standard_name, 31);
        lemma_name_field_round_trip(self.daylight_name, 31);
        lemma_le32(self.bias);
        assert(get_le32(s, 0) == get_le32(le32(self.bias), 0));
        lemma_le32(self.standard_bias);
        assert(get_le32(s, 84) == get_le32(le32(self.standard_bias), 0));
        lemma_le32(self.daylight_bias);
        assert(get_le32(s, 168) == get_le32(le32(self.daylight_bias), 0));
        assert(s.subrange(4, 68) =~= name_field(self.standard_name, 31));
        assert(s.subrange(68, 84) =~= self.standard_date);
        assert(s.subrange(88, 152) =~= name_field(self.daylight_name, 31));
        assert(s.subrange(152, 168) =~= self.daylight_date);
        assert(TimeZoneInformation::spec_parse(s)->Ok_0.0 =~= self);
    }
}

/// A string that does not end in a zero unit.
pub open spec fn no_trailing_zero(u: Seq<u16>) -> bool {
    u.len() == 0 || u.last() != 0
}

/// A counted string of at most 32766 units, valid and not ending in a zero
/// unit, is read back as written, and the bytes after it stay unread.
pub proof fn lemma_counted_round_trip(u: Seq<u16>, tail: Seq<u8>)
    requires
        u.len() <= 32766,
        utf16_valid(u),
        no_trailing_zero(u),
    ensures
        parse_counted(counted_bytes(u) + tail, counted_len(u)) == Ok::<(Seq<u16>, int), ErrorKind>(
            (u, counted_bytes(u).len() as int),
        ),
        (counted_bytes(u) + tail).skip(counted_bytes(u).len() as int) == tail,
{
    reveal(parse_counted);
    let w = u.push(0u16);
    lemma_units_bytes_len(u);
    lemma_units_bytes_len(w);
    assert(w.drop_last() =~= u);
    assert(w.last() == 0u16);
    assert(units_bytes(w) == units_bytes(u) + le16(0));
    lemma_units_of_bytes(w, tail);
    assert(trim_zeros(w.drop_last()) == u) by {
        assert(w.drop_last() =~= u);
    }
    let s = counted_bytes(u) + tail;
    assert(s.skip(counted_bytes(u).len() as int) =~= tail);
}

/// A string that a counted field carries back unchanged.
pub open spec fn string_ok(u: Seq<u16>) -> bool {
    u.len() <= 32766 && utf16_valid(u) && no_trailing_zero(u)
}

/// A name that a fixed time-zone field carries back unchanged.
pub open spec fn name_ok(u: Seq<u16>) -> bool {
    u.len() <= 31 && utf16_valid(u) && forall|i: int| 0 <= i < u.len() ==> u[i] != 0
}

impl ExtendedInfoModel {
    /// Every field survives the trip: strings without trailing zero units,
    /// short time-zone names, known performance flags.
    pub open spec fn round_trips(&self) -> bool {
        &&& string_ok(self.client_address)
        &&& string_ok(self.client_dir)
        &&& name_ok(self.client_time_zone.standard_name)
        &&& name_ok(self.client_time_zone.daylight_name)
        &&& self.client_time_zone.standard_date.len() == 16
        &&& self.client_time_zone.daylight_date.len() == 16
        &&& self.performance_flags & 0x01EF == self.performance_flags
    }
}

/// The part of an extended block after the two strings.
proof fn lemma_ext_tail(e: ExtendedInfoModel, tail: Seq<u8>)
    requires
        e.round_trips(),
    ensures
        ({
            let t2 = e.client_time_zone.spec_bytes() + (le32(e.client_session_id) + (le32(e.performance_flags) + (le16(0) + tail)));
            let t3 = t2.skip(172);
            &&& TimeZoneInformation::spec_parse(t2) == Ok::<(TimeZoneModel, int), ErrorKind>((e.client_time_zone, 172))
            &&& t3.len() >= 8
            &&& get_le32(t3, 0) == e.client_session_id
            &&& get_le32(t3, 4) & 0x01EF == e.performance_flags
            &&& cookie_skip(t3.skip(8)) == 2
        }),
{
    let tail4 = le32(e.client_session_id) + (le32(e.performance_flags) + (le16(0) + tail));
    let t2 = e.client_time_zone.spec_bytes() + tail4;
    e.client_time_zone.lemma_round_trip(tail4);
    lemma_name_field_round_trip(e.client_time_zone.standard_name, 31);
    lemma_name_field_round_trip(e.client_time_zone.daylight_name, 31);
    assert(e.client_time_zone.spec_bytes().len() == 172);
    let t3 = t2.skip(172);
    assert(t3 =~= tail4);
    lemma_le32(e.client_session_id);
    lemma_le32(e.performance_flags);
    assert(get_le32(t3, 0) == get_le32(le32(e.client_session_id), 0));
    assert(get_le32(t3, 4) == get_le32(le32(e.performance_flags), 0));
    lemma_le16(0);
    let t4 = t3.skip(8);
    assert(t4 =~= le16(0) + tail);
    assert(get_le16(t4, 0) == get_le16(le16(0), 0));
}

/// The bytes of an extended block, grouped from the right.
proof fn lemma_ext_shape(e: ExtendedInfoModel, tail: Seq<u8>)
    ensures
        e.spec_bytes() + tail == le16(e.client_address_family) + (le16(counted_len(e.client_address))
            + (counted_bytes(e.client_address) + (le16(counted_len(e.client_dir)) + (counted_bytes(
            e.client_dir,
        ) + (e.client_time_zone.spec_bytes() + (le32(e.client_session_id) + (le32(
            e.performance_flags,
        ) + (le16(0) + tail)))))))),
{
    let fam = le16(e.client_address_family);
    let cla = le16(counted_len(e.client_address));
    let ca = counted_bytes(e.client_address);
    let cld = le16(counted_len(e.client_dir));
    let cd = counted_bytes(e.client_dir);
    let tz = e.client_time_zone.spec_bytes();
    let g = le32(e.client_session_id);
    let h = le32(e.performance_flags);
    let i = le16(0);
    let p1 = fam + cla;
    let p2 = p1 + ca;
    let p3 = p2 + cld;
    let p4 = p3 + cd;
    let p5 = p4 + tz;
    let p6 = p5 + g;
    let p7 = p6 + h;
    lemma_concat_associative(p7, i, tail);
    lemma_concat_associative(p6, h, i + tail);
    lemma_concat_associative(p5, g, h + (i + tail));
    lemma_concat_associative(p4, tz, g + (h + (i + tail)));
    lemma_concat_associative(p3, cd, tz + (g + (h + (i + tail))));
    lemma_concat_associative(p2, cld, cd + (tz + (g + (h + (i + tail)))));
    lemma_concat_associative(p1, ca, cld + (cd + (tz + (g + (h + (i + tail))))));
    lemma_concat_associative(fam, cla, ca + (cld + (cd + (tz + (g + (h + (i + tail)))))));
}

/// An extended block whose fields survive the trip is read back as written,
/// and the bytes after it stay unread.
#[verifier::spinoff_prover]
#[verifier::rlimit(100)]
pub proof fn lemma_ext_round_trip(e: ExtendedInfoModel, tail: Seq<u8>)
    requires
        e.round_trips(),
    ensures
        parse_ext(e.spec_bytes() + tail) == Ok::<(Option<ExtendedInfoModel>, int), ErrorKind>(
            (Some(e), e.spec_bytes().len() as int),
        ),
{
    let tail4 = le32(e.client_session_id) + (le32(e.performance_flags) + (le16(0) + tail));
    let r3 = e.client_time_zone.spec_bytes() + tail4;
    let r2 = counted_bytes(e.client_dir) + r3;
    let r1 = le16(counted_len(e.client_dir)) + r2;
    let r0 = counted_bytes(e.client_address) + r1;
    let s = e.spec_bytes() + tail;
    lemma_ext_shape(e, tail);
    lemma_ext_head(e.client_address_family, counted_len(e.client_address), r0);
    lemma_counted_round_trip(e.client_address, r1);
    let n1 = counted_bytes(e.client_address).len() as int;
    lemma_ext_head2(counted_len(e.client_dir), r2);
    lemma_counted_round_trip(e.client_dir, r3);
    let n2 = counted_bytes(e.client_dir).len() as int;
    lemma_ext_tail(e, tail);
    lemma_name_field_round_trip(e.client_time_zone.standard_name, 31);
    lemma_name_field_round_trip(e.client_time_zone.daylight_name, 31);
    assert(e.spec_bytes().len() == 4 + n1 + 2 + n2 + 172 + 8 + 2);
    reveal(parse_ext);
}

proof fn lemma_ext_head(fam: u16, cla: u16, r0: Seq<u8>)
    ensures
        (le16(fam) + (le16(cla) + r0)).len() >= 4,
        get_le16(le16(fam) + (le16(cla) + r0), 0) == fam,
        get_le16(le16(fam) + (le16(cla) + r0), 2) == cla,
        (le16(fam) + (le16(cla) + r0)).skip(4) == r0,
{
    lemma_le16(fam);
    lemma_le16(cla);
    let s = le16(fam) + (le16(cla) + r0);
    assert(get_le16(s, 0) == get_le16(le16(fam), 0));
    assert(get_le16(s, 2) == get_le16(le16(cla), 0));
    assert(s.skip(4) =~= r0);
}

proof fn lemma_ext_head2(cld: u16, r2: Seq<u8>)
    ensures
        (le16(cld) + r2).len() >= 2,
        get_le16(le16(cld) + r2, 0) == cld,
        (le16(cld) + r2).skip(2) == r2,
{
    lemma_le16(cld);
    assert(get_le16(le16(cld) + r2, 0) == get_le16(le16(cld), 0));
    assert((le16(cld) + r2).skip(2) =~= r2);
}
/// The bytes of the optional extended block.
pub open spec fn ext_bytes(e: Option<ExtendedInfoModel>) -> Seq<u8> {
    match e {
        Some(x) => x.spec_bytes(),
        None => Seq::empty(),
    }
}

impl ClientInfoModel {
    /// Every field survives the trip: known flags, strings without trailing
    /// zero units, and an extended block that survives it too.
    pub open spec fn round_trips(&self) -> bool {
        &&& self.flags & 0x027F_E1FB == self.flags
        &&& string_ok(self.domain)
        &&& string_ok(self.user_name)
        &&& string_ok(self.password)
        &&& string_ok(self.alternate_shell)
        &&& string_ok(self.working_dir)
        &&& self.extended_info matches Some(e) ==> e.round_trips()
    }
}

#[verifier::spinoff_prover]
#[verifier::rlimit(100)]
proof fn lemma_strings_round_trip(m: ClientInfoModel, rest: Seq<u8>)
    requires
        m.round_trips(),
    ensures
        parse_strings(
            m.strings_bytes() + rest,
            counted_len(m.domain),
            counted_len(m.user_name),
            counted_len(m.password),
            counted_len(m.alternate_shell),
            counted_len(m.working_dir),
        ) == Ok::<((Seq<u16>, Seq<u16>, Seq<u16>, Seq<u16>, Seq<u16>), int), ErrorKind>(
            ((m.domain, m.user_name, m.password, m.alternate_shell, m.working_dir), m.strings_bytes().len() as int),
        ),
{
    reveal(parse_strings);
    let a = counted_bytes(m.domain);
    let b = counted_bytes(m.user_name);
    let c = counted_bytes(m.password);
    let d = counted_bytes(m.alternate_shell);
    let e = counted_bytes(m.working_dir);
    lemma_concat_associative(a + b + c + d, e, rest);
    lemma_concat_associative(a + b + c, d, e + rest);
    lemma_concat_associative(a + b, c, d + (e + rest));
    lemma_concat_associative(a, b, c + (d + (e + rest)));
    lemma_counted_round_trip(m.domain, b + (c + (d + (e + rest))));
    lemma_counted_round_trip(m.user_name, c + (d + (e + rest)));
    lemma_counted_round_trip(m.password, d + (e + rest));
    lemma_counted_round_trip(m.alternate_shell, e + rest);
    lemma_counted_round_trip(m.working_dir, rest);
}

proof fn lemma_client_info_head(m: ClientInfoModel, rest: Seq<u8>)
    ensures
        ({
            let s = le32(m.code_page) + le32(m.flags) + m.counts_bytes() + rest;
            &&& s.len() >= 18
            &&& get_le32(s, 0) == m.code_page
            &&& get_le32(s, 4) == m.flags
            &&& get_le16(s, 8) == counted_len(m.domain)
            &&& get_le16(s, 10) == counted_len(m.user_name)
            &&& get_le16(s, 12) == counted_len(m.password)
            &&& get_le16(s, 14) == counted_len(m.alternate_shell)
            &&& get_le16(s, 16) == counted_len(m.working_dir)
            &&& s.skip(18) == rest
        }),
{
    let s = le32(m.code_page) + le32(m.flags) + m.counts_bytes() + rest;
    lemma_le32(m.code_page);
    lemma_le32(m.flags);
    lemma_le16(counted_len(m.domain));
    lemma_le16(counted_len(m.user_name));
    lemma_le16(counted_len(m.password));
    lemma_le16(counted_len(m.alternate_shell));
    lemma_le16(counted_len(m.working_dir));
    assert(get_le32(s, 0) == get_le32(le32(m.code_page), 0));
    assert(get_le32(s, 4) == get_le32(le32(m.flags), 0));
    assert(get_le16(s, 8) == get_le16(le16(counted_len(m.domain)), 0));
    assert(get_le16(s, 10) == get_le16(le16(counted_len(m.user_name)), 0));
    assert(get_le16(s, 12) == get_le16(le16(counted_len(m.password)), 0));
    assert(get_le16(s, 14) == get_le16(le16(counted_len(m.alternate_shell)), 0));
    assert(get_le16(s, 16) == get_le16(le16(counted_len(m.working_dir)), 0));
    assert(s.skip(18) =~= rest);
}

/// A Client Info PDU whose fields survive the trip is read back as written.
/// With an extended block the bytes after it stay unread; without one, any
/// two further bytes would be taken for the start of an extended block, so
/// fewer may follow.
#[verifier::spinoff_prover]
#[verifier::rlimit(100)]
pub proof fn lemma_client_info_round_trip(m: ClientInfoModel, tail: Seq<u8>)
    requires
        m.round_trips(),
        m.extended_info is Some || tail.len() < 2,
    ensures
        ClientInfoPdu::spec_parse(m.spec_bytes() + tail) == Ok::<(ClientInfoModel, int), ErrorKind>(
            (m, m.spec_bytes().len() as int),
        ),
{
    let head = le32(m.code_page) + le32(m.flags) + m.counts_bytes();
    let st = m.strings_bytes();
    let ex = ext_bytes(m.extended_info);
    assert(m.spec_bytes() == head + st + ex);
    lemma_concat_associative(head + st, ex, tail);
    lemma_concat_associative(head, st, ex + tail);
    let s = m.spec_bytes() + tail;
    assert(s == head + (st + (ex + tail)));
    lemma_client_info_head(m, st + (ex + tail));
    lemma_strings_round_trip(m, ex + tail);
    let n = st.len() as int;
    assert((st + (ex + tail)).skip(n) =~= ex + tail);
    match m.extended_info {
        Some(e) => {
            lemma_ext_round_trip(e, tail);
        },
        None => {
            reveal(parse_ext);
            assert(ex + tail =~= tail);
        },
    }
}

} // verus!
