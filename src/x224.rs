//! ITU-T X.224 class 0: Connection Request / Confirm with the optional RDP
//! cookie and negotiation block, and the Data PDU.
use vstd::prelude::*;
use vstd::utf8::{decode_utf8, encode_utf8, is_ascii_chars, is_ascii_chars_encode_utf8, valid_utf8};
use crate::ber::{reads, BerReader};
use crate::bytes::{get_le16, get_le32, le16, le32, put_bytes, put_u16_le, put_u32_le, put_u8};
use crate::error::{push_str, ErrorKind, PduError, Result};

verus! {

/// X.224 PDU types, as the type byte less its end-of-transmission bit.
#[derive(Debug, Clone, Copy, PartialEq, Eq, Structural)]
pub enum PduType {
    ConnectionRequest,
    ConnectionConfirm,
    DisconnectRequest,
    Data,
    Error,
}

impl PduType {
    pub open spec fn spec_from_u8(value: u8) -> Option<PduType> {
        let t = value & 0xFE;
        if t == 0xE0 {
            Some(PduType::ConnectionRequest)
        } else if t == 0xD0 {
            Some(PduType::ConnectionConfirm)
        } else if t == 0x80 {
            Some(PduType::DisconnectRequest)
        } else if t == 0xF0 {
            Some(PduType::Data)
        } else if t == 0x70 {
            Some(PduType::Error)
        } else {
            None
        }
    }

    /// The type that a type byte names, ignoring bit 0.
    pub fn from_u8(value: u8) -> (r: Option<PduType>)
        ensures
            r == Self::spec_from_u8(value),
    {
        let t = value & 0xFE;
        if t == 0xE0 {
            Some(PduType::ConnectionRequest)
        } else if t == 0xD0 {
            Some(PduType::ConnectionConfirm)
        } else if t == 0x80 {
            Some(PduType::DisconnectRequest)
        } else if t == 0xF0 {
            Some(PduType::Data)
        } else if t == 0x70 {
            Some(PduType::Error)
        } else {
            None
        }
    }
}

// ---------------------------------------------------------------------------
// Data PDU

/// Type byte of a Data PDU, without the end-of-transmission bit.
pub const X224_DATA_TYPE: u8 = 0xF0;

/// The end-of-transmission bit of the type byte.
pub const EOT_FLAG: u8 = 0x01;

/// Size of the Data PDU header without extra bytes.
pub const X224_DATA_HEADER_MIN_SIZE: usize = 2;

/// The header of a Data PDU.
#[derive(Debug, Clone, Copy, PartialEq, Eq)]
pub struct DataHeader {
    /// Header length less one.
    pub length_indicator: u8,
    /// 0xF0.
    pub pdu_type: u8,
    /// End of transmission.
    pub eot: bool,
}

impl DataHeader {
    pub open spec fn spec_bytes(&self) -> Seq<u8> {
        seq![self.length_indicator, if self.eot { self.pdu_type | EOT_FLAG } else { self.pdu_type }]
    }

    /// What the header decoder makes of `s`: the type byte must be 0xF0 or
    /// 0xF1, and bytes beyond the two announced by the length indicator are
    /// skipped.
    pub open spec fn spec_parse(s: Seq<u8>) -> core::result::Result<(DataHeader, int), ErrorKind> {
        if s.len() < 2 {
            Err(ErrorKind::InsufficientData { needed: 2, available: s.len() as usize })
        } else if s[1] & 0xFE != X224_DATA_TYPE {
            Err(ErrorKind::InvalidPduType(s[1]))
        } else if s[0] < 1 {
            Err(ErrorKind::InvalidLength { expected: 1, actual: s[0] as usize })
        } else if s.len() - 2 < s[0] - 1 {
            Err(ErrorKind::InsufficientData {
                needed: (s[0] - 1) as usize,
                available: (s.len() - 2) as usize,
            })
        } else {
            Ok((
                DataHeader {
                    length_indicator: s[0],
                    pdu_type: X224_DATA_TYPE,
                    eot: s[1] & EOT_FLAG != 0,
                },
                s[0] + 1,
            ))
        }
    }

    /// A two-byte header.
    pub fn new(eot: bool) -> (h: Self)
        ensures
            h == (DataHeader { length_indicator: 1, pdu_type: X224_DATA_TYPE, eot }),
    {
        DataHeader { length_indicator: 1, pdu_type: X224_DATA_TYPE, eot }
    }

    /// Appends the length indicator and the type byte.
    pub fn encode(&self, buffer: &mut Vec<u8>) -> (r: Result<()>)
        ensures
            r is Ok,
            final(buffer)@ == old(buffer)@ + self.spec_bytes(),
    {
        put_u8(buffer, self.length_indicator);
        let type_byte = if self.eot { self.pdu_type | EOT_FLAG } else { self.pdu_type };
        put_u8(buffer, type_byte);
        assert(final(buffer)@ =~= old(buffer)@ + self.spec_bytes());
        Ok(())
    }

    /// Reads the header, skipping bytes beyond the first two.
    pub fn decode(buffer: &mut BerReader) -> (r: Result<Self>)
        ensures
            crate::ber::consumed(*old(buffer), *final(buffer)),
            reads(r, Self::spec_parse(old(buffer).rest()), old(buffer).rest(), final(buffer).rest()),
    {
        if buffer.remaining() < 2 {
            return Err(PduError::InsufficientData { needed: 2, available: buffer.remaining() });
        }
        let ghost s = buffer.rest();
        let length_indicator = buffer.take_u8();
        let type_byte = buffer.take_u8();
        assert(s.skip(1).skip(1) =~= s.skip(2));
        let eot = type_byte & EOT_FLAG != 0;
        if type_byte & 0xFE != X224_DATA_TYPE {
            return Err(PduError::InvalidPduType(type_byte));
        }
        if length_indicator < 1 {
            return Err(PduError::InvalidLength { expected: 1, actual: length_indicator as usize });
        }
        let extra = (length_indicator - 1) as usize;
        if buffer.remaining() < extra {
            return Err(PduError::InsufficientData { needed: extra, available: buffer.remaining() });
        }
        let _ = buffer.take_bytes(extra);
        assert(buffer.rest() =~= s.skip(length_indicator + 1));
        Ok(DataHeader { length_indicator, pdu_type: X224_DATA_TYPE, eot })
    }

    /// Header length: the length indicator plus one.
    pub fn size(&self) -> (n: usize)
        ensures
            n == self.length_indicator + 1,
    {
        self.length_indicator as usize + 1
    }

    /// A header made by `new` is read back as written.
    pub proof fn lemma_round_trip(self, tail: Seq<u8>)
        requires
            self.length_indicator == 1,
            self.pdu_type == X224_DATA_TYPE,
        ensures
            Self::spec_parse(self.spec_bytes() + tail) == Ok::<(DataHeader, int), ErrorKind>((self, 2)),
    {
        let s = self.spec_bytes() + tail;
        assert(s[1] == self.spec_bytes()[1]);
        assert((0xF0u8 | 1u8) & 0xFE == 0xF0u8 && (0xF0u8 | 1u8) & 1 != 0 && 0xF0u8 & 1 == 0
            && 0xF0u8 & 0xFE == 0xF0u8) by (bit_vector);
    }
}

/// A Data PDU: its header, then a payload that runs to the end of the frame.
#[derive(Debug, Clone, PartialEq, Eq)]
pub struct DataPdu {
    header: DataHeader,
    payload: Vec<u8>,
}

impl DataPdu {
    pub closed spec fn spec_header(&self) -> DataHeader {
        self.header
    }

    pub closed spec fn spec_payload(&self) -> Seq<u8> {
        self.payload@
    }

    pub open spec fn spec_bytes(&self) -> Seq<u8> {
        self.spec_header().spec_bytes() + self.spec_payload()
    }

    /// A Data PDU with end of transmission set.
    pub fn new(payload: Vec<u8>) -> (p: Self)
        ensures
            p.spec_header() == DataHeader::new_spec(true),
            p.spec_payload() == payload@,
    {
        Self::new_with_eot(payload, true)
    }

    /// A Data PDU with the given end-of-transmission flag.
    pub fn new_with_eot(payload: Vec<u8>, eot: bool) -> (p: Self)
        ensures
            p.spec_header() == DataHeader::new_spec(eot),
            p.spec_payload() == payload@,
    {
        DataPdu { header: DataHeader::new(eot), payload }
    }

    /// The header.
    pub fn header(&self) -> (h: &DataHeader)
        ensures
            *h == self.spec_header(),
    {
        &self.header
    }

    /// The payload.
    pub fn payload(&self) -> (p: &[u8])
        ensures
            p@ == self.spec_payload(),
    {
        self.payload.as_slice()
    }

    /// The payload, by value.
    pub fn into_payload(self) -> (p: Vec<u8>)
        ensures
            p@ == self.spec_payload(),
    {
        self.payload
    }

    /// The payload, to change in place.
    pub fn payload_mut(&mut self) -> (p: &mut Vec<u8>)
        ensures
            (*p)@ == old(self).spec_payload(),
            final(self).spec_payload() == final(p)@,
            final(self).spec_header() == old(self).spec_header(),
    {
        &mut self.payload
    }

    /// The end-of-transmission flag.
    pub fn eot(&self) -> (b: bool)
        ensures
            b == self.spec_header().eot,
    {
        self.header.eot
    }

    /// What decoding does with the input `before`, leaving `after`.
    pub open spec fn decoded(before: Seq<u8>, after: Seq<u8>, r: Result<Self>) -> bool {
        match DataHeader::spec_parse(before) {
            Err(k) => r is Err && r->Err_0.spec_kind() == k,
            Ok((h, n)) => {
                &&& r is Ok
                &&& r->Ok_0.spec_header() == h
                &&& r->Ok_0.spec_payload() == before.skip(n)
                &&& after.len() == 0
            },
        }
    }

    /// Appends the header and the payload.
    pub fn encode(&self, buffer: &mut Vec<u8>) -> (r: Result<()>)
        ensures
            r is Ok,
            final(buffer)@ == old(buffer)@ + self.spec_bytes(),
    {
        let _ = self.header.encode(buffer);
        put_bytes(buffer, self.payload.as_slice());
        assert(final(buffer)@ =~= old(buffer)@ + self.spec_bytes());
        Ok(())
    }

    /// Reads the header, then everything that is left as the payload.
    pub fn decode(buffer: &mut BerReader) -> (r: Result<Self>)
        ensures
            crate::ber::consumed(*old(buffer), *final(buffer)),
            Self::decoded(old(buffer).rest(), final(buffer).rest(), r),
    {
        let header = DataHeader::decode(buffer)?;
        let payload = buffer.read_to_end();
        Ok(DataPdu { header, payload })
    }

    /// Header size plus payload length.
    pub fn size(&self) -> (n: usize)
        requires
            self.spec_payload().len() + 256 <= usize::MAX,
        ensures
            n == self.spec_header().length_indicator + 1 + self.spec_payload().len(),
    {
        self.header.size() + self.payload.len()
    }
}

impl DataHeader {
    pub open spec fn new_spec(eot: bool) -> DataHeader {
        DataHeader { length_indicator: 1, pdu_type: X224_DATA_TYPE, eot }
    }
}

// ---------------------------------------------------------------------------
// Connection Request / Confirm

/// Type byte of a Connection Request.
pub const X224_CR_TYPE: u8 = 0xE0;

/// Type byte of a Connection Confirm.
pub const X224_CC_TYPE: u8 = 0xD0;

/// Size of the fixed part of a connection PDU.
pub const X224_CONNECTION_HEADER_MIN_SIZE: usize = 7;

/// Negotiation request.
pub const RDP_NEG_REQ: u8 = 0x01;

/// Negotiation response.
pub const RDP_NEG_RSP: u8 = 0x02;

/// Negotiation failure.
pub const RDP_NEG_FAILURE: u8 = 0x03;

/// Size of the negotiation block.
pub const RDP_NEG_DATA_SIZE: usize = 8;

/// Security protocols of the negotiation block.
#[derive(Debug, Clone, Copy, PartialEq, Eq, Structural)]
pub enum Protocol {
    RdpSecurity,
    Ssl,
    Hybrid,
    RdsTls,
    HybridEx,
}

impl Protocol {
    pub open spec fn spec_as_u32(self) -> u32 {
        match self {
            Protocol::RdpSecurity => 0x00,
            Protocol::Ssl => 0x01,
            Protocol::Hybrid => 0x02,
            Protocol::RdsTls => 0x04,
            Protocol::HybridEx => 0x08,
        }
    }

    /// The protocol's value on the wire.
    pub fn as_u32(self) -> (r: u32)
        ensures
            r == self.spec_as_u32(),
    {
        match self {
            Protocol::RdpSecurity => 0x00,
            Protocol::Ssl => 0x01,
            Protocol::Hybrid => 0x02,
            Protocol::RdsTls => 0x04,
            Protocol::HybridEx => 0x08,
        }
    }

    /// The protocol with the given value, if any.
    pub fn from_u32(value: u32) -> (r: Option<Protocol>)
        ensures
            r matches Some(p) ==> p.spec_as_u32() == value,
            r is None ==> !(value == 0 || value == 1 || value == 2 || value == 4 || value == 8),
    {
        match value {
            0x00 => Some(Protocol::RdpSecurity),
            0x01 => Some(Protocol::Ssl),
            0x02 => Some(Protocol::Hybrid),
            0x04 => Some(Protocol::RdsTls),
            0x08 => Some(Protocol::HybridEx),
            _ => None,
        }
    }
}

/// The RDP negotiation block: type, flags, length 8, selected protocol. The
/// flags byte is written as 0 and read as it comes.
#[derive(Debug, Clone, Copy, PartialEq, Eq)]
pub struct RdpNegotiation {
    pub neg_type: u8,
    pub flags: u8,
    pub selected_protocol: u32,
}

impl RdpNegotiation {
    pub open spec fn spec_bytes(&self) -> Seq<u8> {
        seq![self.neg_type, 0u8] + le16(8) + le32(self.selected_protocol)
    }

    /// What the block decoder makes of `s`: any type and flags; a length
    /// field other than 8 is refused as soon as it is read, before the
    /// selected protocol is asked for.
    pub open spec fn spec_parse(s: Seq<u8>) -> core::result::Result<(RdpNegotiation, int), ErrorKind> {
        if s.len() < 4 {
            Err(ErrorKind::InsufficientData { needed: 4, available: s.len() as usize })
        } else if get_le16(s, 2) != 8 {
            Err(ErrorKind::InvalidLength { expected: 8, actual: get_le16(s, 2) as usize })
        } else if s.len() < 8 {
            Err(ErrorKind::InsufficientData { needed: 4, available: (s.len() - 4) as usize })
        } else {
            Ok((RdpNegotiation { neg_type: s[0], flags: s[1], selected_protocol: get_le32(s, 4) }, 8))
        }
    }

    /// A request for `protocol`.
    pub fn new_request(protocol: u32) -> (n: Self)
        ensures
            n == (RdpNegotiation { neg_type: RDP_NEG_REQ, flags: 0, selected_protocol: protocol }),
    {
        RdpNegotiation { neg_type: RDP_NEG_REQ, flags: 0, selected_protocol: protocol }
    }

    /// A response selecting `protocol`.
    pub fn new_response(protocol: u32) -> (n: Self)
        ensures
            n == (RdpNegotiation { neg_type: RDP_NEG_RSP, flags: 0, selected_protocol: protocol }),
    {
        RdpNegotiation { neg_type: RDP_NEG_RSP, flags: 0, selected_protocol: protocol }
    }

    /// Appends the eight bytes of the block, with flags 0.
    pub fn encode(&self, buffer: &mut Vec<u8>) -> (r: Result<()>)
        ensures
            r is Ok,
            final(buffer)@ == old(buffer)@ + self.spec_bytes(),
    {
        put_u8(buffer, self.neg_type);
        put_u8(buffer, 0);
        put_u16_le(buffer, RDP_NEG_DATA_SIZE as u16);
        put_u32_le(buffer, self.selected_protocol);
        assert(final(buffer)@ =~= old(buffer)@ + self.spec_bytes());
        Ok(())
    }

    /// Reads a block; a length field other than 8 is refused.
    pub fn decode(buffer: &mut BerReader) -> (r: Result<Self>)
        ensures
            crate::ber::consumed(*old(buffer), *final(buffer)),
            reads(r, Self::spec_parse(old(buffer).rest()), old(buffer).rest(), final(buffer).rest()),
    {
        if buffer.remaining() < 4 {
            return Err(PduError::InsufficientData { needed: 4, available: buffer.remaining() });
        }
        let ghost s = buffer.rest();
        let neg_type = buffer.take_u8();
        let flags = buffer.take_u8();
        let length = buffer.take_u16_le();
        assert(s.skip(1).skip(1).skip(2) =~= s.skip(4));
        if length != RDP_NEG_DATA_SIZE as u16 {
            return Err(PduError::InvalidLength { expected: RDP_NEG_DATA_SIZE, actual: length as usize });
        }
        if buffer.remaining() < 4 {
            return Err(PduError::InsufficientData { needed: 4, available: buffer.remaining() });
        }
        let selected_protocol = buffer.take_u32_le();
        assert(s.skip(4).skip(4) =~= s.skip(8));
        Ok(RdpNegotiation { neg_type, flags, selected_protocol })
    }

    /// Always 8.
    pub fn size(&self) -> (n: usize)
        ensures
            n == self.spec_bytes().len(),
    {
        RDP_NEG_DATA_SIZE
    }

    /// Every block with flags 0 is read back as written.
    pub proof fn lemma_round_trip(self, tail: Seq<u8>)
        requires
            self.flags == 0,
        ensures
            Self::spec_parse(self.spec_bytes() + tail) == Ok::<(RdpNegotiation, int), ErrorKind>((self, 8)),
    {
        crate::bytes::lemma_le16(8);
        crate::bytes::lemma_le32(self.selected_protocol);
        let s = self.spec_bytes() + tail;
        assert(get_le16(s, 2) == get_le16(le16(8), 0));
        assert(get_le32(s, 4) == get_le32(le32(self.selected_protocol), 0));
    }
}

/// The fixed seven bytes of a Connection Request or Confirm.
#[derive(Debug, Clone, Copy, PartialEq, Eq)]
pub struct ConnectionHeader {
    /// Header length less one, the variable part included.
    pub length_indicator: u8,
    /// 0xE0 for a request, 0xD0 for a confirm.
    pub pdu_type: u8,
    pub dst_ref: u16,
    pub src_ref: u16,
    pub class_option: u8,
}

impl ConnectionHeader {
    pub open spec fn spec_bytes(&self) -> Seq<u8> {
        seq![self.length_indicator, self.pdu_type] + le16(self.dst_ref) + le16(self.src_ref)
            + seq![self.class_option]
    }

    /// What the header decoder makes of `s`: a request or confirm type byte.
    pub open spec fn spec_parse(s: Seq<u8>) -> core::result::Result<(ConnectionHeader, int), ErrorKind> {
        if s.len() < 7 {
            Err(ErrorKind::InsufficientData { needed: 7, available: s.len() as usize })
        } else if s[1] != X224_CR_TYPE && s[1] != X224_CC_TYPE {
            Err(ErrorKind::InvalidPduType(s[1]))
        } else {
            Ok((
                ConnectionHeader {
                    length_indicator: s[0],
                    pdu_type: s[1],
                    dst_ref: get_le16(s, 2),
                    src_ref: get_le16(s, 4),
                    class_option: s[6],
                },
                7,
            ))
        }
    }

    /// The header of a bare request.
    pub fn new_request(src_ref: u16) -> (h: Self)
        ensures
            h == (ConnectionHeader { length_indicator: 6, pdu_type: X224_CR_TYPE, dst_ref: 0, src_ref, class_option: 0 }),
    {
        ConnectionHeader { length_indicator: 6, pdu_type: X224_CR_TYPE, dst_ref: 0, src_ref, class_option: 0 }
    }

    /// The header of a bare confirm.
    pub fn new_confirm(dst_ref: u16, src_ref: u16) -> (h: Self)
        ensures
            h == (ConnectionHeader { length_indicator: 6, pdu_type: X224_CC_TYPE, dst_ref, src_ref, class_option: 0 }),
    {
        ConnectionHeader { length_indicator: 6, pdu_type: X224_CC_TYPE, dst_ref, src_ref, class_option: 0 }
    }

    /// Appends the seven bytes.
    pub fn encode(&self, buffer: &mut Vec<u8>) -> (r: Result<()>)
        ensures
            r is Ok,
            final(buffer)@ == old(buffer)@ + self.spec_bytes(),
    {
        put_u8(buffer, self.length_indicator);
        put_u8(buffer, self.pdu_type);
        put_u16_le(buffer, self.dst_ref);
        put_u16_le(buffer, self.src_ref);
        put_u8(buffer, self.class_option);
        assert(final(buffer)@ =~= old(buffer)@ + self.spec_bytes());
        Ok(())
    }

    /// Reads the seven bytes.
    pub fn decode(buffer: &mut BerReader) -> (r: Result<Self>)
        ensures
            crate::ber::consumed(*old(buffer), *final(buffer)),
            reads(r, Self::spec_parse(old(buffer).rest()), old(buffer).rest(), final(buffer).rest()),
    {
        if buffer.remaining() < X224_CONNECTION_HEADER_MIN_SIZE {
            return Err(PduError::InsufficientData {
                needed: X224_CONNECTION_HEADER_MIN_SIZE,
                available: buffer.remaining(),
            });
        }
        let ghost s = buffer.rest();
        let length_indicator = buffer.take_u8();
        let pdu_type = buffer.take_u8();
        let dst_ref = buffer.take_u16_le();
        let src_ref = buffer.take_u16_le();
        let class_option = buffer.take_u8();
        assert(s.skip(1).skip(1).skip(2).skip(2).skip(1) =~= s.skip(7));
        if pdu_type != X224_CR_TYPE && pdu_type != X224_CC_TYPE {
            return Err(PduError::InvalidPduType(pdu_type));
        }
        Ok(ConnectionHeader { length_indicator, pdu_type, dst_ref, src_ref, class_option })
    }

    /// The length indicator plus one.
    pub fn size(&self) -> (n: usize)
        ensures
            n == self.length_indicator + 1,
    {
        self.length_indicator as usize + 1
    }

    /// A header of either type is read back as written.
    pub proof fn lemma_round_trip(self, tail: Seq<u8>)
        requires
            self.pdu_type == X224_CR_TYPE || self.pdu_type == X224_CC_TYPE,
        ensures
            Self::spec_parse(self.spec_bytes() + tail) == Ok::<(ConnectionHeader, int), ErrorKind>((self, 7)),
    {
        crate::bytes::lemma_le16(self.dst_ref);
        crate::bytes::lemma_le16(self.src_ref);
        let s = self.spec_bytes() + tail;
        assert(get_le16(s, 2) == get_le16(le16(self.dst_ref), 0));
        assert(get_le16(s, 4) == get_le16(le16(self.src_ref), 0));
    }
}

/// Bytes of the variable part that follow the fixed seven, by the length indicator.
pub open spec fn variable_length(li: u8) -> int {
    if li + 1 >= 7 {
        li + 1 - 7
    } else {
        0
    }
}

/// "Cookie: mstshash=" in ASCII.
pub open spec fn cookie_prefix() -> Seq<u8> {
    seq![67u8, 111, 111, 107, 105, 101, 58, 32, 109, 115, 116, 115, 104, 97, 115, 104, 61]
}

/// Index of the first CR LF pair at or after `i`, or -1.
pub open spec fn find_crlf(v: Seq<u8>, i: int) -> int
    decreases v.len() - i,
{
    if i < 0 || i + 1 >= v.len() {
        -1
    } else if v[i] == 13 && v[i + 1] == 10 {
        i
    } else {
        find_crlf(v, i + 1)
    }
}

/// Where the cookie line of a variable part ends (after its CR LF), or 0
/// when there is none: it must start with the cookie prefix, hold a CR LF,
/// and be valid UTF-8.
pub open spec fn cookie_end(v: Seq<u8>) -> int {
    if v.len() >= 17 && v.take(17) == cookie_prefix() && find_crlf(v, 0) >= 0 && valid_utf8(
        v.take(find_crlf(v, 0) + 2),
    ) {
        find_crlf(v, 0) + 2
    } else {
        0
    }
}

/// The negotiation block that follows the cookie in a variable part, if one decodes.
pub open spec fn negotiation_in(v: Seq<u8>, from: int) -> Option<RdpNegotiation> {
    if from < v.len() {
        match RdpNegotiation::spec_parse(v.skip(from)) {
            Ok((n, _)) => Some(n),
            Err(_) => None,
        }
    } else {
        None
    }
}

/// UTF-8 encodes a concatenation piece by piece.
pub proof fn lemma_encode_utf8_concat(a: Seq<char>, b: Seq<char>)
    ensures
        encode_utf8(a + b) == encode_utf8(a) + encode_utf8(b),
    decreases a.len(),
{
    if a.len() == 0 {
        assert(a + b =~= b);
        assert(encode_utf8(a) + encode_utf8(b) =~= encode_utf8(b));
    } else {
        lemma_encode_utf8_concat(a.drop_first(), b);
        assert((a + b).drop_first() =~= a.drop_first() + b);
        assert((a + b)[0] == a[0]);
        assert(encode_utf8(a + b) =~= encode_utf8(a) + encode_utf8(b));
    }
}

/// The cookie line for `username`: the cookie prefix, the name, CR LF.
fn cookie_line(username: &str) -> (r: String)
    ensures
        r@ == "Cookie: mstshash="@ + username@ + "\r\n"@,
{
    let mut line = String::new();
    push_str(&mut line, "Cookie: mstshash=");
    push_str(&mut line, username);
    push_str(&mut line, "\r\n");
    assert(line@ =~= "Cookie: mstshash="@ + username@ + "\r\n"@);
    line
}

/// Relies on std's `String::from_utf8`: Some exactly for valid UTF-8, holding
/// the characters those bytes encode.
#[verifier::external_body]
fn string_from_utf8(bytes: Vec<u8>) -> (r: Option<String>)
    ensures
        r is Some <==> valid_utf8(bytes@),
        r matches Some(s) ==> s@ == decode_utf8(bytes@),
{
    String::from_utf8(bytes).ok()
}

/// The first CR LF pair at or after `from`.
fn find_crlf_exec(v: &[u8], from: usize) -> (r: Option<usize>)
    ensures
        r matches Some(i) ==> i == find_crlf(v@, from as int) && i + 1 < v@.len(),
        r is None ==> find_crlf(v@, from as int) == -1,
    decreases v@.len() - from,
{
    if from >= v.len() || from + 1 >= v.len() {
        return None;
    }
    if v[from] == 13 && v[from + 1] == 10 {
        Some(from)
    } else {
        find_crlf_exec(v, from + 1)
    }
}

/// Splits a variable part into its cookie and its negotiation block.
fn decode_variable(data: &[u8]) -> (r: (Option<String>, Option<RdpNegotiation>))
    ensures
        r.0 is Some <==> cookie_end(data@) > 0,
        r.0 matches Some(c) ==> c@ == decode_utf8(data@.take(cookie_end(data@))),
        r.1 == negotiation_in(data@, cookie_end(data@)),
{
    let mut cookie: Option<String> = None;
    let mut pos: usize = 0;
    if data.len() >= 17 {
        let mut is_cookie = true;
        let prefix: [u8; 17] = [67, 111, 111, 107, 105, 101, 58, 32, 109, 115, 116, 115, 104, 97, 115, 104, 61];
        assert(prefix@ =~= cookie_prefix());
        let mut i: usize = 0;
        while i < 17
            invariant
                i <= 17 <= data@.len(),
                prefix@ == cookie_prefix(),
                is_cookie <==> forall|k: int| 0 <= k < i ==> data@[k] == cookie_prefix()[k],
            decreases 17 - i,
        {
            if data[i] != prefix[i] {
                is_cookie = false;
            }
            i = i + 1;
        }
        assert(is_cookie <==> data@.take(17) =~= cookie_prefix());
        assert(cookie_prefix().take(17) =~= cookie_prefix());
        if is_cookie {
            match find_crlf_exec(data, 0) {
                Some(end) => {
                    let mut line: Vec<u8> = Vec::new();
                    let mut j: usize = 0;
                    let stop = end + 2;
                    while j < stop
                        invariant
                            stop == end + 2,
                            j <= stop <= data@.len(),
                            line@ == data@.take(j as int),
                        decreases stop - j,
                    {
                        line.push(data[j]);
                        j = j + 1;
                        assert(line@ =~= data@.take(j as int));
                    }
                    cookie = string_from_utf8(line);
                    if cookie.is_some() {
                        pos = end + 2;
                    }
                }
                None => {}
            }
        }
    }
    let mut negotiation: Option<RdpNegotiation> = None;
    if pos < data.len() {
        let mut sub = BerReader::new(data);
        let _ = sub.take_bytes(pos);
        match RdpNegotiation::decode(&mut sub) {
            Ok(n) => {
                negotiation = Some(n);
            }
            Err(_) => {}
        }
    }
    (cookie, negotiation)
}

/// The bytes that a cookie takes on the wire.
pub open spec fn cookie_bytes(c: Option<String>) -> Seq<u8> {
    match c {
        Some(s) => encode_utf8(s@),
        None => Seq::empty(),
    }
}

/// The bytes that a negotiation block takes on the wire.
pub open spec fn negotiation_bytes(n: Option<RdpNegotiation>) -> Seq<u8> {
    match n {
        Some(b) => b.spec_bytes(),
        None => Seq::empty(),
    }
}

/// Appends the UTF-8 bytes of a cookie, if any.
fn encode_cookie(c: &Option<String>, buffer: &mut Vec<u8>)
    ensures
        final(buffer)@ == old(buffer)@ + cookie_bytes(*c),
{
    match c {
        Some(s) => {
            put_bytes(buffer, s.as_str().as_bytes());
        }
        None => {
            assert(old(buffer)@ + cookie_bytes(*c) =~= old(buffer)@);
        }
    }
}

/// Appends a negotiation block, if any.
fn encode_negotiation(n: &Option<RdpNegotiation>, buffer: &mut Vec<u8>)
    ensures
        final(buffer)@ == old(buffer)@ + negotiation_bytes(*n),
{
    match n {
        Some(b) => {
            let _ = b.encode(buffer);
        }
        None => {
            assert(old(buffer)@ + negotiation_bytes(*n) =~= old(buffer)@);
        }
    }
}

/// Reads a connection header of type `expected`, then its variable part.
fn decode_connection(buffer: &mut BerReader, expected: u8) -> (r: Result<(ConnectionHeader, Vec<u8>)>)
    ensures
        crate::ber::consumed(*old(buffer), *final(buffer)),
        connection_read(r, old(buffer).rest(), final(buffer).rest(), expected),
{
    let ghost s = buffer.rest();
    let header = ConnectionHeader::decode(buffer)?;
    if header.pdu_type != expected {
        return Err(PduError::InvalidPduType(header.pdu_type));
    }
    let li = header.length_indicator as usize + 1;
    let variable = if li >= X224_CONNECTION_HEADER_MIN_SIZE { li - X224_CONNECTION_HEADER_MIN_SIZE } else { 0 };
    let data = buffer.read_bytes(variable)?;
    assert(data@ =~= s.subrange(7, 7 + variable));
    assert(buffer.rest() =~= s.skip(7 + variable));
    Ok((header, data))
}

/// What reading a connection PDU of type `expected` does: the header, and the
/// variable part that its length indicator announces.
pub open spec fn connection_read(
    r: Result<(ConnectionHeader, Vec<u8>)>,
    before: Seq<u8>,
    after: Seq<u8>,
    expected: u8,
) -> bool {
    match ConnectionHeader::spec_parse(before) {
        Err(k) => r is Err && r->Err_0.spec_kind() == k,
        Ok((h, _)) => if h.pdu_type != expected {
            r is Err && r->Err_0.spec_kind() == ErrorKind::InvalidPduType(h.pdu_type)
        } else if before.len() - 7 < variable_length(h.length_indicator) {
            r is Err && r->Err_0.spec_kind() == (ErrorKind::InsufficientData {
                needed: variable_length(h.length_indicator) as usize,
                available: (before.len() - 7) as usize,
            })
        } else {
            &&& r is Ok
            &&& r->Ok_0.0 == h
            &&& r->Ok_0.1@ == before.subrange(7, 7 + variable_length(h.length_indicator))
            &&& after == before.skip(7 + variable_length(h.length_indicator))
        },
    }
}

/// A Connection Request: header, optional cookie line, optional negotiation block.
#[derive(Debug, Clone, PartialEq, Eq)]
pub struct ConnectionRequest {
    header: ConnectionHeader,
    cookie: Option<String>,
    rdp_negotiation: Option<RdpNegotiation>,
}

impl ConnectionRequest {
    pub closed spec fn spec_header(&self) -> ConnectionHeader {
        self.header
    }

    pub closed spec fn spec_cookie(&self) -> Option<String> {
        self.cookie
    }

    pub closed spec fn spec_negotiation(&self) -> Option<RdpNegotiation> {
        self.rdp_negotiation
    }

    /// The length indicator counts the variable part.
    pub open spec fn wf(&self) -> bool {
        self.spec_header().length_indicator == 6 + cookie_bytes(self.spec_cookie()).len()
            + negotiation_bytes(self.spec_negotiation()).len()
    }

    pub open spec fn spec_bytes(&self) -> Seq<u8> {
        self.spec_header().spec_bytes() + cookie_bytes(self.spec_cookie()) + negotiation_bytes(
            self.spec_negotiation(),
        )
    }

    /// A bare request from `src_ref`.
    pub fn new(src_ref: u16) -> (r: Self)
        ensures
            r.wf(),
            r.spec_header() == (ConnectionHeader { length_indicator: 6, pdu_type: X224_CR_TYPE, dst_ref: 0, src_ref, class_option: 0 }),
            r.spec_cookie() is None,
            r.spec_negotiation() is None,
    {
        ConnectionRequest { header: ConnectionHeader::new_request(src_ref), cookie: None, rdp_negotiation: None }
    }

    fn update_length_indicator(&mut self)
        requires
            cookie_bytes(old(self).cookie).len() + negotiation_bytes(old(self).rdp_negotiation).len() <= 249,
        ensures
            final(self).wf(),
            final(self).cookie == old(self).cookie,
            final(self).rdp_negotiation == old(self).rdp_negotiation,
            final(self).header == (ConnectionHeader { length_indicator: final(self).header.length_indicator, ..old(self).header }),
    {
        let mut variable: usize = 0;
        match &self.cookie {
            Some(c) => {
                variable = c.as_str().as_bytes().len();
            }
            None => {}
        }
        match &self.rdp_negotiation {
            Some(_) => {
                variable = variable + RDP_NEG_DATA_SIZE;
            }
            None => {}
        }
        self.header.length_indicator = (6 + variable) as u8;
    }

    /// Adds the cookie line for `username`.
    pub fn with_cookie(self, username: &str) -> (r: Self)
        requires
            self.wf(),
            encode_utf8(username@).len() + 19 + negotiation_bytes(self.spec_negotiation()).len() <= 249,
        ensures
            r.wf(),
            r.spec_cookie() matches Some(c) && c@ == "Cookie: mstshash="@ + username@ + "\r\n"@,
            r.spec_negotiation() == self.spec_negotiation(),
            r.spec_header().src_ref == self.spec_header().src_ref,
            r.spec_header().dst_ref == self.spec_header().dst_ref,
            r.spec_header().pdu_type == self.spec_header().pdu_type,
            r.spec_header().class_option == self.spec_header().class_option,
    {
        let mut r = self;
        let line = cookie_line(username);
        proof {
            reveal_strlit("Cookie: mstshash=");
            reveal_strlit("\r\n");
            lemma_encode_utf8_concat("Cookie: mstshash="@ + username@, "\r\n"@);
            lemma_encode_utf8_concat("Cookie: mstshash="@, username@);
            assert(is_ascii_chars("Cookie: mstshash="@));
            assert(is_ascii_chars("\r\n"@));
            is_ascii_chars_encode_utf8("Cookie: mstshash="@);
            is_ascii_chars_encode_utf8("\r\n"@);
        }
        r.cookie = Some(line);
        r.update_length_indicator();
        r
    }

    /// Adds a negotiation request for `protocol`.
    pub fn with_negotiation(self, protocol: u32) -> (r: Self)
        requires
            self.wf(),
            cookie_bytes(self.spec_cookie()).len() <= 241,
        ensures
            r.wf(),
            r.spec_negotiation() == Some(RdpNegotiation { neg_type: RDP_NEG_REQ, flags: 0, selected_protocol: protocol }),
            r.spec_cookie() == self.spec_cookie(),
            r.spec_header().src_ref == self.spec_header().src_ref,
            r.spec_header().dst_ref == self.spec_header().dst_ref,
            r.spec_header().pdu_type == self.spec_header().pdu_type,
            r.spec_header().class_option == self.spec_header().class_option,
    {
        let mut r = self;
        r.rdp_negotiation = Some(RdpNegotiation::new_request(protocol));
        r.update_length_indicator();
        r
    }

    /// The header.
    pub fn header(&self) -> (h: &ConnectionHeader)
        ensures
            *h == self.spec_header(),
    {
        &self.header
    }

    /// The cookie line, CR LF included.
    pub fn cookie(&self) -> (c: Option<&str>)
        ensures
            c is Some <==> self.spec_cookie() is Some,
            c matches Some(s) ==> s@ == self.spec_cookie()->0@,
    {
        match &self.cookie {
            Some(s) => Some(s.as_str()),
            None => None,
        }
    }

    /// The negotiation block.
    pub fn rdp_negotiation(&self) -> (n: Option<&RdpNegotiation>)
        ensures
            n is Some <==> self.spec_negotiation() is Some,
            n matches Some(b) ==> *b == self.spec_negotiation()->0,
    {
        match &self.rdp_negotiation {
            Some(b) => Some(b),
            None => None,
        }
    }

    /// What decoding does with the input `before`, leaving `after`.
    pub open spec fn decoded(before: Seq<u8>, after: Seq<u8>, r: Result<Self>) -> bool {
        match ConnectionHeader::spec_parse(before) {
            Err(k) => r is Err && r->Err_0.spec_kind() == k,
            Ok((h, _)) => {
                let s = before;
                let n = variable_length(h.length_indicator);
                let v = s.subrange(7, 7 + n);
                if h.pdu_type != X224_CR_TYPE {
                    r is Err && r->Err_0.spec_kind() == ErrorKind::InvalidPduType(h.pdu_type)
                } else if s.len() - 7 < n {
                    r is Err && r->Err_0.spec_kind() == (ErrorKind::InsufficientData {
                        needed: n as usize,
                        available: (s.len() - 7) as usize,
                    })
                } else {
                    &&& r is Ok
                    &&& r->Ok_0.spec_header() == h
                    &&& (r->Ok_0.spec_cookie() is Some <==> cookie_end(v) > 0)
                    &&& (r->Ok_0.spec_cookie() matches Some(c) ==> c@ == decode_utf8(v.take(cookie_end(v))))
                    &&& r->Ok_0.spec_negotiation() == negotiation_in(v, cookie_end(v))
                    &&& after == s.skip(7 + n)
                }
            },
        }
    }

    /// Appends header, cookie line and negotiation block.
    pub fn encode(&self, buffer: &mut Vec<u8>) -> (r: Result<()>)
        ensures
            r is Ok,
            final(buffer)@ == old(buffer)@ + self.spec_bytes(),
    {
        let _ = self.header.encode(buffer);
        encode_cookie(&self.cookie, buffer);
        encode_negotiation(&self.rdp_negotiation, buffer);
        assert(final(buffer)@ =~= old(buffer)@ + self.spec_bytes());
        Ok(())
    }

    /// Reads a request. Its variable part holds an optional cookie line
    /// (prefix "Cookie: mstshash=", up to and with the first CR LF), then, if
    /// bytes are left, a negotiation block, which is dropped if it does not decode.
    pub fn decode(buffer: &mut BerReader) -> (r: Result<Self>)
        ensures
            crate::ber::consumed(*old(buffer), *final(buffer)),
            Self::decoded(old(buffer).rest(), final(buffer).rest(), r),
    {
        let (header, data) = decode_connection(buffer, X224_CR_TYPE)?;
        let (cookie, rdp_negotiation) = decode_variable(data.as_slice());
        Ok(ConnectionRequest { header, cookie, rdp_negotiation })
    }

    /// Header, cookie and negotiation lengths together.
    pub fn size(&self) -> (n: usize)
        requires
            self.wf(),
        ensures
            n == self.spec_bytes().len(),
    {
        let mut n: usize = 7;
        match &self.cookie {
            Some(c) => {
                n = n + c.as_str().as_bytes().len();
            }
            None => {}
        }
        match &self.rdp_negotiation {
            Some(_) => {
                n = n + RDP_NEG_DATA_SIZE;
            }
            None => {}
        }
        n
    }
}

/// A Connection Confirm: header and optional negotiation block.
#[derive(Debug, Clone, PartialEq, Eq)]
pub struct ConnectionConfirm {
    header: ConnectionHeader,
    rdp_negotiation: Option<RdpNegotiation>,
}

impl ConnectionConfirm {
    pub closed spec fn spec_header(&self) -> ConnectionHeader {
        self.header
    }

    pub closed spec fn spec_negotiation(&self) -> Option<RdpNegotiation> {
        self.rdp_negotiation
    }

    /// The length indicator counts the negotiation block.
    pub open spec fn wf(&self) -> bool {
        self.spec_header().length_indicator == 6 + negotiation_bytes(self.spec_negotiation()).len()
    }

    pub open spec fn spec_bytes(&self) -> Seq<u8> {
        self.spec_header().spec_bytes() + negotiation_bytes(self.spec_negotiation())
    }

    /// A bare confirm.
    pub fn new(dst_ref: u16, src_ref: u16) -> (r: Self)
        ensures
            r.wf(),
            r.spec_header() == (ConnectionHeader { length_indicator: 6, pdu_type: X224_CC_TYPE, dst_ref, src_ref, class_option: 0 }),
            r.spec_negotiation() is None,
    {
        ConnectionConfirm { header: ConnectionHeader::new_confirm(dst_ref, src_ref), rdp_negotiation: None }
    }

    /// Adds a negotiation response selecting `protocol`.
    pub fn with_negotiation(self, protocol: u32) -> (r: Self)
        ensures
            r.wf(),
            r.spec_negotiation() == Some(RdpNegotiation { neg_type: RDP_NEG_RSP, flags: 0, selected_protocol: protocol }),
            r.spec_header() == (ConnectionHeader { length_indicator: 14, ..self.spec_header() }),
    {
        let mut r = self;
        r.rdp_negotiation = Some(RdpNegotiation::new_response(protocol));
        r.header.length_indicator = (X224_CONNECTION_HEADER_MIN_SIZE - 1 + RDP_NEG_DATA_SIZE) as u8;
        r
    }

    /// The header.
    pub fn header(&self) -> (h: &ConnectionHeader)
        ensures
            *h == self.spec_header(),
    {
        &self.header
    }

    /// The negotiation block.
    pub fn rdp_negotiation(&self) -> (n: Option<&RdpNegotiation>)
        ensures
            n is Some <==> self.spec_negotiation() is Some,
            n matches Some(b) ==> *b == self.spec_negotiation()->0,
    {
        match &self.rdp_negotiation {
            Some(b) => Some(b),
            None => None,
        }
    }

    /// What decoding does with the input `before`, leaving `after`.
    pub open spec fn decoded(before: Seq<u8>, after: Seq<u8>, r: Result<Self>) -> bool {
        match ConnectionHeader::spec_parse(before) {
            Err(k) => r is Err && r->Err_0.spec_kind() == k,
            Ok((h, _)) => {
                let s = before;
                let n = variable_length(h.length_indicator);
                if h.pdu_type != X224_CC_TYPE {
                    r is Err && r->Err_0.spec_kind() == ErrorKind::InvalidPduType(h.pdu_type)
                } else if s.len() - 7 < n {
                    r is Err && r->Err_0.spec_kind() == (ErrorKind::InsufficientData {
                        needed: n as usize,
                        available: (s.len() - 7) as usize,
                    })
                } else {
                    &&& r is Ok
                    &&& r->Ok_0.spec_header() == h
                    &&& r->Ok_0.spec_negotiation() == negotiation_in(s.subrange(7, 7 + n), 0)
                    &&& after == s.skip(7 + n)
                }
            },
        }
    }

    /// Appends header and negotiation block.
    pub fn encode(&self, buffer: &mut Vec<u8>) -> (r: Result<()>)
        ensures
            r is Ok,
            final(buffer)@ == old(buffer)@ + self.spec_bytes(),
    {
        let _ = self.header.encode(buffer);
        encode_negotiation(&self.rdp_negotiation, buffer);
        assert(final(buffer)@ =~= old(buffer)@ + self.spec_bytes());
        Ok(())
    }

    /// Reads a confirm; a variable part that does not decode as a negotiation
    /// block is dropped.
    pub fn decode(buffer: &mut BerReader) -> (r: Result<Self>)
        ensures
            crate::ber::consumed(*old(buffer), *final(buffer)),
            Self::decoded(old(buffer).rest(), final(buffer).rest(), r),
    {
        let (header, data) = decode_connection(buffer, X224_CC_TYPE)?;
        let mut rdp_negotiation: Option<RdpNegotiation> = None;
        if data.len() > 0 {
            let mut sub = BerReader::new(data.as_slice());
            assert(sub.rest().skip(0) =~= sub.rest());
            match RdpNegotiation::decode(&mut sub) {
                Ok(n) => {
                    rdp_negotiation = Some(n);
                }
                Err(_) => {}
            }
        }
        Ok(ConnectionConfirm { header, rdp_negotiation })
    }

    /// Header and negotiation lengths together.
    pub fn size(&self) -> (n: usize)
        ensures
            n == self.spec_bytes().len(),
    {
        match &self.rdp_negotiation {
            Some(_) => 7 + RDP_NEG_DATA_SIZE,
            None => 7,
        }
    }
}

/// A Data PDU header whose type byte, less bit 0, is not 0xF0 (a Connection
/// Request's 0xE0 among them) is refused as an invalid PDU type carrying the
/// byte.
pub proof fn lemma_data_type_refused(s: Seq<u8>)
    requires
        s.len() >= 2,
        s[1] & 0xFE != X224_DATA_TYPE,
    ensures
        DataHeader::spec_parse(s) == Err::<(DataHeader, int), ErrorKind>(ErrorKind::InvalidPduType(s[1])),
{
}

/// A negotiation block whose length field is not 8 is refused as an invalid
/// length, expected 8, carrying the field's value, however short the rest.
pub proof fn lemma_negotiation_length_refused(s: Seq<u8>)
    requires
        s.len() >= 4,
        get_le16(s, 2) != 8,
    ensures
        RdpNegotiation::spec_parse(s) == Err::<(RdpNegotiation, int), ErrorKind>(
            ErrorKind::InvalidLength { expected: 8, actual: get_le16(s, 2) as usize },
        ),
{
}

impl DataPdu {
    /// A Data PDU made by `new` or `new_with_eot` is read back from its
    /// encoding, the payload running to the end of the input.
    pub proof fn lemma_round_trip(self)
        requires
            self.spec_header() == DataHeader::new_spec(self.spec_header().eot),
        ensures
            DataHeader::spec_parse(self.spec_bytes()) == Ok::<(DataHeader, int), ErrorKind>((self.spec_header(), 2)),
            self.spec_bytes().skip(2) == self.spec_payload(),
    {
        self.spec_header().lemma_round_trip(self.spec_payload());
        assert(self.spec_bytes().skip(2) =~= self.spec_payload());
    }
}

impl ConnectionConfirm {
    /// A well-formed confirm is read back as written: its header, and its
    /// negotiation block if it has one.
    pub proof fn lemma_round_trip(self, tail: Seq<u8>)
        requires
            self.wf(),
            self.spec_header().pdu_type == X224_CC_TYPE,
            self.spec_negotiation() matches Some(n) ==> n.flags == 0,
        ensures
            ConnectionHeader::spec_parse(self.spec_bytes() + tail) == Ok::<(ConnectionHeader, int), ErrorKind>(
                (self.spec_header(), 7),
            ),
            variable_length(self.spec_header().length_indicator) == negotiation_bytes(self.spec_negotiation()).len(),
            negotiation_in((self.spec_bytes() + tail).subrange(7, self.spec_bytes().len() as int), 0)
                == self.spec_negotiation(),
            (self.spec_bytes() + tail).skip(self.spec_bytes().len() as int) == tail,
    {
        let h = self.spec_header();
        let nb = negotiation_bytes(self.spec_negotiation());
        h.lemma_round_trip(nb + tail);
        assert(self.spec_bytes() + tail =~= h.spec_bytes() + (nb + tail));
        let s = self.spec_bytes() + tail;
        assert(s.subrange(7, self.spec_bytes().len() as int) =~= nb);
        assert(s.skip(self.spec_bytes().len() as int) =~= tail);
        match self.spec_negotiation() {
            Some(n) => {
                n.lemma_round_trip(Seq::empty());
                assert(nb.skip(0) =~= n.spec_bytes() + Seq::<u8>::empty());
            },
            None => {},
        }
    }
}

/// A cookie line that the decoder finds again: the cookie prefix, then no
/// CR LF before the one that ends it.
pub open spec fn cookie_line_ok(b: Seq<u8>) -> bool {
    &&& b.len() >= 19
    &&& b.take(17) == cookie_prefix()
    &&& find_crlf(b, 0) == b.len() - 2
}

/// Searching past the end of `b` finds the same CR LF as in `b` alone.
proof fn lemma_find_crlf_prefix(b: Seq<u8>, n: Seq<u8>, i: int)
    requires
        0 <= i <= b.len() - 2,
        find_crlf(b, i) == b.len() - 2,
    ensures
        find_crlf(b + n, i) == b.len() - 2,
    decreases b.len() - i,
{
    let v = b + n;
    assert(v[i] == b[i]);
    assert(v[i + 1] == b[i + 1]);
    if !(b[i] == 13 && b[i + 1] == 10) {
        assert(find_crlf(b, i) == find_crlf(b, i + 1));
        if i + 1 > b.len() - 2 {
            assert(find_crlf(b, i + 1) == -1);
        }
        lemma_find_crlf_prefix(b, n, i + 1);
    }
}

/// The variable part of a request: the cookie line, found again when it is
/// well formed, then the negotiation block.
proof fn lemma_variable_part(c: Option<String>, n: Option<RdpNegotiation>)
    requires
        c matches Some(x) ==> cookie_line_ok(encode_utf8(x@)),
        n matches Some(b) ==> b.flags == 0,
    ensures
        ({
            let v = cookie_bytes(c) + negotiation_bytes(n);
            &&& (c is Some <==> cookie_end(v) > 0)
            &&& (c matches Some(x) ==> x@ == decode_utf8(v.take(cookie_end(v))))
            &&& negotiation_in(v, cookie_end(v)) == n
        }),
{
    let cb = cookie_bytes(c);
    let nb = negotiation_bytes(n);
    let v = cb + nb;
    match c {
        Some(x) => {
            vstd::utf8::encode_utf8_valid_utf8(x@);
            vstd::utf8::encode_utf8_decode_utf8(x@);
            lemma_find_crlf_prefix(cb, nb, 0);
            assert(v.take(17) =~= cb.take(17));
            assert(v.take(cb.len() as int) =~= cb);
            assert(v.skip(cb.len() as int) =~= nb);
        },
        None => {
            assert(v =~= nb);
            assert(v.skip(0) =~= nb);
        },
    }
    match n {
        Some(b) => {
            b.lemma_round_trip(Seq::empty());
            assert(b.spec_bytes() + Seq::<u8>::empty() =~= b.spec_bytes());
        },
        None => {},
    }
}

impl ConnectionRequest {
    /// A well-formed request whose cookie line the decoder finds again is
    /// read back as written: its header, its cookie and its negotiation
    /// block; the bytes after it stay unread.
    pub proof fn lemma_round_trip(self, tail: Seq<u8>)
        requires
            self.wf(),
            self.spec_header().pdu_type == X224_CR_TYPE,
            self.spec_cookie() matches Some(c) ==> cookie_line_ok(encode_utf8(c@)),
            self.spec_negotiation() matches Some(n) ==> n.flags == 0,
        ensures
            ({
                let s = self.spec_bytes() + tail;
                let v = s.subrange(7, self.spec_bytes().len() as int);
                &&& ConnectionHeader::spec_parse(s) == Ok::<(ConnectionHeader, int), ErrorKind>((self.spec_header(), 7))
                &&& 7 + variable_length(self.spec_header().length_indicator) == self.spec_bytes().len()
                &&& (self.spec_cookie() is Some <==> cookie_end(v) > 0)
                &&& (self.spec_cookie() matches Some(c) ==> c@ == decode_utf8(v.take(cookie_end(v))))
                &&& negotiation_in(v, cookie_end(v)) == self.spec_negotiation()
                &&& s.skip(self.spec_bytes().len() as int) == tail
            }),
    {
        let h = self.spec_header();
        let cb = cookie_bytes(self.spec_cookie());
        let nb = negotiation_bytes(self.spec_negotiation());
        h.lemma_round_trip(cb + nb + tail);
        assert(self.spec_bytes() + tail =~= h.spec_bytes() + (cb + nb + tail));
        let s = self.spec_bytes() + tail;
        assert(s.subrange(7, self.spec_bytes().len() as int) =~= cb + nb);
        assert(s.skip(self.spec_bytes().len() as int) =~= tail);
        lemma_variable_part(self.spec_cookie(), self.spec_negotiation());
    }
}

} // verus!
