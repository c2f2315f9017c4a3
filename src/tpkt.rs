//! RFC 1006 framing: a four-byte header (version 3, reserved, big-endian
//! total length) followed by the payload.
use vstd::prelude::*;
use crate::ber::{reads, BerReader};
use crate::bytes::{be16, get_be16, put_bytes, put_u16_be, put_u8};
use crate::error::{ErrorKind, PduError, Result};

verus! {

/// The only TPKT version.
pub const TPKT_VERSION: u8 = 0x03;

/// Size of the TPKT header in bytes.
pub const TPKT_HEADER_SIZE: usize = 4;

/// The TPKT header.
#[derive(Debug, Clone, Copy, PartialEq, Eq)]
pub struct TpktHeader {
    /// Always 3.
    pub version: u8,
    /// Always 0 when written.
    pub reserved: u8,
    /// Header plus payload, in bytes.
    pub length: u16,
}

impl TpktHeader {
    pub open spec fn spec_bytes(&self) -> Seq<u8> {
        seq![self.version, self.reserved] + be16(self.length)
    }

    /// What the header decoder makes of `s`.
    pub open spec fn spec_parse(s: Seq<u8>) -> core::result::Result<(TpktHeader, int), ErrorKind> {
        if s.len() < 4 {
            Err(ErrorKind::InsufficientData { needed: 4, available: s.len() as usize })
        } else if s[0] != TPKT_VERSION {
            Err(ErrorKind::UnsupportedVersion(s[0]))
        } else if get_be16(s, 2) < 4 {
            Err(ErrorKind::InvalidLength { expected: 4, actual: get_be16(s, 2) as usize })
        } else {
            Ok((TpktHeader { version: s[0], reserved: s[1], length: get_be16(s, 2) }, 4))
        }
    }

    /// A header for a payload of `payload_length` bytes.
    pub fn new(payload_length: u16) -> (h: Self)
        requires
            payload_length <= 65531,
        ensures
            h.version == TPKT_VERSION,
            h.reserved == 0,
            h.length == payload_length + 4,
    {
        TpktHeader { version: TPKT_VERSION, reserved: 0, length: TPKT_HEADER_SIZE as u16 + payload_length }
    }

    /// Appends the four header bytes.
    pub fn encode(&self, buffer: &mut Vec<u8>) -> (r: Result<()>)
        ensures
            r is Ok,
            final(buffer)@ == old(buffer)@ + self.spec_bytes(),
    {
        put_u8(buffer, self.version);
        put_u8(buffer, self.reserved);
        put_u16_be(buffer, self.length);
        assert(final(buffer)@ =~= old(buffer)@ + self.spec_bytes());
        Ok(())
    }

    /// Reads four bytes and checks version and length.
    pub fn decode(buffer: &mut BerReader) -> (r: Result<Self>)
        ensures
            crate::ber::consumed(*old(buffer), *final(buffer)),
            reads(r, Self::spec_parse(old(buffer).rest()), old(buffer).rest(), final(buffer).rest()),
    {
        if buffer.remaining() < TPKT_HEADER_SIZE {
            return Err(PduError::InsufficientData { needed: TPKT_HEADER_SIZE, available: buffer.remaining() });
        }
        let ghost s = buffer.rest();
        let version = buffer.take_u8();
        let reserved = buffer.take_u8();
        let length = buffer.take_u16_be();
        assert(s.skip(1).skip(1).skip(2) =~= s.skip(4));
        if version != TPKT_VERSION {
            return Err(PduError::UnsupportedVersion(version));
        }
        if (length as usize) < TPKT_HEADER_SIZE {
            return Err(PduError::InvalidLength { expected: TPKT_HEADER_SIZE, actual: length as usize });
        }
        Ok(TpktHeader { version, reserved, length })
    }

    /// Length of the payload: the total length less the header, or zero.
    pub fn payload_length(&self) -> (n: usize)
        ensures
            n == if self.length >= 4 { self.length - 4 } else { 0 },
    {
        if self.length as usize >= TPKT_HEADER_SIZE {
            self.length as usize - TPKT_HEADER_SIZE
        } else {
            0
        }
    }

    /// A header that passed the decoder is read back as written.
    pub proof fn lemma_round_trip(self, tail: Seq<u8>)
        requires
            self.version == TPKT_VERSION,
            self.length >= 4,
        ensures
            Self::spec_parse(self.spec_bytes() + tail) == Ok::<(TpktHeader, int), ErrorKind>((self, 4)),
    {
        crate::bytes::lemma_be16(self.length);
        let s = self.spec_bytes() + tail;
        assert(get_be16(s, 2) == get_be16(be16(self.length), 0));
    }
}

/// A TPKT header and its payload.
#[derive(Debug, Clone, PartialEq, Eq)]
pub struct TpktPacket {
    header: TpktHeader,
    payload: Vec<u8>,
}

impl TpktPacket {
    pub closed spec fn spec_header(&self) -> TpktHeader {
        self.header
    }

    pub closed spec fn spec_payload(&self) -> Seq<u8> {
        self.payload@
    }

    /// The header's length counts the header and the payload; the version is 3.
    pub open spec fn wf(&self) -> bool {
        &&& self.spec_header().version == TPKT_VERSION
        &&& self.spec_header().length == self.spec_payload().len() + 4
    }

    pub open spec fn spec_bytes(&self) -> Seq<u8> {
        self.spec_header().spec_bytes() + self.spec_payload()
    }

    /// A packet around `payload`; its length field is derived.
    pub fn new(payload: Vec<u8>) -> (p: Self)
        requires
            payload@.len() <= 65531,
        ensures
            p.wf(),
            p.spec_payload() == payload@,
            p.spec_header().reserved == 0,
    {
        let header = TpktHeader::new(payload.len() as u16);
        TpktPacket { header, payload }
    }

    /// The header.
    pub fn header(&self) -> (h: &TpktHeader)
        ensures
            *h == self.spec_header(),
    {
        &self.header
    }

    /// The payload.
    pub fn payload(&self) -> (p: &[u8])
        ensures
            p@ == self.spec_payload(),
    {
        self.payload.as_slice()
    }

    /// The payload, by value.
    pub fn into_payload(self) -> (p: Vec<u8>)
        ensures
            p@ == self.spec_payload(),
    {
        self.payload
    }

    /// The payload, to change in place.
    pub fn payload_mut(&mut self) -> (p: &mut Vec<u8>)
        ensures
            (*p)@ == old(self).spec_payload(),
            final(self).spec_payload() == final(p)@,
            final(self).spec_header() == old(self).spec_header(),
    {
        &mut self.payload
    }

    /// What decoding does with the input `before`, leaving `after`.
    pub open spec fn decoded(before: Seq<u8>, after: Seq<u8>, r: Result<Self>) -> bool {
        match TpktHeader::spec_parse(before) {
            Err(k) => r is Err && r->Err_0.spec_kind() == k,
            Ok((h, _)) => {
                let s = before;
                if s.len() < h.length {
                    r is Err && r->Err_0.spec_kind() == (ErrorKind::InsufficientData {
                        needed: (h.length - 4) as usize,
                        available: (s.len() - 4) as usize,
                    })
                } else {
                    &&& r is Ok
                    &&& r->Ok_0.spec_header() == h
                    &&& r->Ok_0.spec_payload() == s.subrange(4, h.length as int)
                    &&& after == s.skip(h.length as int)
                }
            },
        }
    }

    /// Appends the header and the payload.
    pub fn encode(&self, buffer: &mut Vec<u8>) -> (r: Result<()>)
        ensures
            r is Ok,
            final(buffer)@ == old(buffer)@ + self.spec_bytes(),
    {
        let _ = self.header.encode(buffer);
        put_bytes(buffer, self.payload.as_slice());
        assert(final(buffer)@ =~= old(buffer)@ + self.spec_bytes());
        Ok(())
    }

    /// Reads a header, then exactly as many payload bytes as it announces.
    pub fn decode(buffer: &mut BerReader) -> (r: Result<Self>)
        ensures
            crate::ber::consumed(*old(buffer), *final(buffer)),
            Self::decoded(old(buffer).rest(), final(buffer).rest(), r),
    {
        let ghost s = buffer.rest();
        let header = TpktHeader::decode(buffer)?;
        let payload = buffer.read_bytes(header.payload_length())?;
        assert(payload@ =~= s.subrange(4, header.length as int));
        assert(buffer.rest() =~= s.skip(header.length as int));
        Ok(TpktPacket { header, payload })
    }

    /// Total length of the encoding: the header's length field.
    pub fn size(&self) -> (n: usize)
        ensures
            n == self.spec_header().length,
            self.wf() ==> n == self.spec_bytes().len(),
    {
        self.header.length as usize
    }

    /// Every well-formed packet is decoded from its encoding, and the bytes
    /// after it stay unread.
    pub proof fn lemma_round_trip(self, tail: Seq<u8>)
        requires
            self.wf(),
        ensures
            TpktHeader::spec_parse(self.spec_bytes() + tail) == Ok::<(TpktHeader, int), ErrorKind>(
                (self.spec_header(), 4),
            ),
            (self.spec_bytes() + tail).subrange(4, self.spec_header().length as int)
                == self.spec_payload(),
            (self.spec_bytes() + tail).skip(self.spec_header().length as int) == tail,
    {
        let h = self.spec_header();
        h.lemma_round_trip(self.spec_payload() + tail);
        assert(self.spec_bytes() + tail =~= h.spec_bytes() + (self.spec_payload() + tail));
        assert((self.spec_bytes() + tail).subrange(4, h.length as int) =~= self.spec_payload());
        assert((self.spec_bytes() + tail).skip(h.length as int) =~= tail);
    }
}

/// A TPKT header whose version byte is not 3 is refused as an unsupported
/// version carrying that byte.
pub proof fn lemma_wrong_version_refused(s: Seq<u8>)
    requires
        s.len() >= 4,
        s[0] != TPKT_VERSION,
    ensures
        TpktHeader::spec_parse(s) == Err::<(TpktHeader, int), ErrorKind>(ErrorKind::UnsupportedVersion(s[0])),
{
}

/// A TPKT header of version 3 whose length field is below 4 is refused as an
/// invalid length, expected 4, carrying the field's value.
pub proof fn lemma_short_length_refused(s: Seq<u8>)
    requires
        s.len() >= 4,
        s[0] == TPKT_VERSION,
        get_be16(s, 2) < 4,
    ensures
        TpktHeader::spec_parse(s) == Err::<(TpktHeader, int), ErrorKind>(
            ErrorKind::InvalidLength { expected: 4, actual: get_be16(s, 2) as usize },
        ),
{
}

} // verus!
