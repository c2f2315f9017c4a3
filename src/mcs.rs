//! T.125 Multipoint Communication Service PDUs, BER encoded: Connect-Initial
//! and -Response, Erect Domain, Attach User and Channel Join.
use vstd::prelude::*;
use crate::ber::{
    ber_boolean, ber_enumerated, ber_integer, ber_octet_string, ber_tlv, parse_envelope,
    parse_integer, parse_integers, parse_length, parse_octet, parse_octet_string, reads,
    reads_view, lemma_envelope_round_trip, lemma_integer_len, lemma_integer_rest, lemma_integers_len,
    lemma_octet_round_trip, lemma_header_round_trip, lemma_length_round_trip, lemma_integers_round_trip,
    integers_bytes, ber_length, lemma_octet_string_round_trip, lemma_tlv_len, TAG_OCTET_STRING, BerReader, BerWriter, CLASS_APPLICATION, TAG_BOOLEAN, TAG_ENUMERATED,
    TAG_SEQUENCE,
};
use crate::bytes::put_bytes;
use crate::error::{ErrorKind, PduError, Result};

verus! {

/// Erect Domain Request, [APPLICATION 1].
pub const MCS_ERECT_DOMAIN_REQUEST: u8 = 1;

/// Attach User Request, [APPLICATION 10].
pub const MCS_ATTACH_USER_REQUEST: u8 = 10;

/// Attach User Confirm, [APPLICATION 11].
pub const MCS_ATTACH_USER_CONFIRM: u8 = 11;

/// Channel Join Request, [APPLICATION 14].
pub const MCS_CHANNEL_JOIN_REQUEST: u8 = 14;

/// Channel Join Confirm, [APPLICATION 15].
pub const MCS_CHANNEL_JOIN_CONFIRM: u8 = 15;

/// Connect-Initial, [APPLICATION 101].
pub const MCS_CONNECT_INITIAL: u8 = 101;

/// Connect-Response, [APPLICATION 102].
pub const MCS_CONNECT_RESPONSE: u8 = 102;

/// MCS result codes.
#[derive(Debug, Clone, Copy, PartialEq, Eq, Structural)]
pub enum McsResult {
    RtSuccessful,
    RtDomainMerging,
    RtDomainNotHierarchical,
    RtNoSuchChannel,
    RtNoSuchDomain,
    RtNoSuchUser,
    RtNotAdmitted,
    RtOtherUserIdInvalid,
    RtParametersUnacceptable,
    RtTokenNotAvailable,
    RtTokenNotPossessed,
    RtTooManyChannels,
    RtTooManyTokens,
    RtTooManyUsers,
    RtUnspecifiedFailure,
    RtUserRejected,
}

impl McsResult {
    pub open spec fn spec_as_u8(self) -> u8 {
        match self {
            McsResult::RtSuccessful => 0,
            McsResult::RtDomainMerging => 1,
            McsResult::RtDomainNotHierarchical => 2,
            McsResult::RtNoSuchChannel => 3,
            McsResult::RtNoSuchDomain => 4,
            McsResult::RtNoSuchUser => 5,
            McsResult::RtNotAdmitted => 6,
            McsResult::RtOtherUserIdInvalid => 7,
            McsResult::RtParametersUnacceptable => 8,
            McsResult::RtTokenNotAvailable => 9,
            McsResult::RtTokenNotPossessed => 10,
            McsResult::RtTooManyChannels => 11,
            McsResult::RtTooManyTokens => 12,
            McsResult::RtTooManyUsers => 13,
            McsResult::RtUnspecifiedFailure => 14,
            McsResult::RtUserRejected => 15,
        }
    }

    /// The result with code `value`, for codes 0 to 15.
    pub open spec fn spec_from_u8(value: u8) -> Option<McsResult> {
        if value == 0 {
            Some(McsResult::RtSuccessful)
        } else if value == 1 {
            Some(McsResult::RtDomainMerging)
        } else if value == 2 {
            Some(McsResult::RtDomainNotHierarchical)
        } else if value == 3 {
            Some(McsResult::RtNoSuchChannel)
        } else if value == 4 {
            Some(McsResult::RtNoSuchDomain)
        } else if value == 5 {
            Some(McsResult::RtNoSuchUser)
        } else if value == 6 {
            Some(McsResult::RtNotAdmitted)
        } else if value == 7 {
            Some(McsResult::RtOtherUserIdInvalid)
        } else if value == 8 {
            Some(McsResult::RtParametersUnacceptable)
        } else if value == 9 {
            Some(McsResult::RtTokenNotAvailable)
        } else if value == 10 {
            Some(McsResult::RtTokenNotPossessed)
        } else if value == 11 {
            Some(McsResult::RtTooManyChannels)
        } else if value == 12 {
            Some(McsResult::RtTooManyTokens)
        } else if value == 13 {
            Some(McsResult::RtTooManyUsers)
        } else if value == 14 {
            Some(McsResult::RtUnspecifiedFailure)
        } else if value == 15 {
            Some(McsResult::RtUserRejected)
        } else {
            None
        }
    }

    /// The code of this result.
    pub fn as_u8(self) -> (r: u8)
        ensures
            r == self.spec_as_u8(),
            Self::spec_from_u8(r) == Some(self),
    {
        match self {
            McsResult::RtSuccessful => 0,
            McsResult::RtDomainMerging => 1,
            McsResult::RtDomainNotHierarchical => 2,
            McsResult::RtNoSuchChannel => 3,
            McsResult::RtNoSuchDomain => 4,
            McsResult::RtNoSuchUser => 5,
            McsResult::RtNotAdmitted => 6,
            McsResult::RtOtherUserIdInvalid => 7,
            McsResult::RtParametersUnacceptable => 8,
            McsResult::RtTokenNotAvailable => 9,
            McsResult::RtTokenNotPossessed => 10,
            McsResult::RtTooManyChannels => 11,
            McsResult::RtTooManyTokens => 12,
            McsResult::RtTooManyUsers => 13,
            McsResult::RtUnspecifiedFailure => 14,
            McsResult::RtUserRejected => 15,
        }
    }

    /// The result with code `value`; None from 16 on.
    pub fn from_u8(value: u8) -> (r: Option<McsResult>)
        ensures
            r == Self::spec_from_u8(value),
    {
        match value {
            0 => Some(McsResult::RtSuccessful),
            1 => Some(McsResult::RtDomainMerging),
            2 => Some(McsResult::RtDomainNotHierarchical),
            3 => Some(McsResult::RtNoSuchChannel),
            4 => Some(McsResult::RtNoSuchDomain),
            5 => Some(McsResult::RtNoSuchUser),
            6 => Some(McsResult::RtNotAdmitted),
            7 => Some(McsResult::RtOtherUserIdInvalid),
            8 => Some(McsResult::RtParametersUnacceptable),
            9 => Some(McsResult::RtTokenNotAvailable),
            10 => Some(McsResult::RtTokenNotPossessed),
            11 => Some(McsResult::RtTooManyChannels),
            12 => Some(McsResult::RtTooManyTokens),
            13 => Some(McsResult::RtTooManyUsers),
            14 => Some(McsResult::RtUnspecifiedFailure),
            15 => Some(McsResult::RtUserRejected),
            _ => None,
        }
    }
}

/// A result code read as an ENUMERATED, then looked up.
pub open spec fn parse_result(s: Seq<u8>) -> core::result::Result<(McsResult, int), ErrorKind> {
    match parse_octet(s, TAG_ENUMERATED) {
        Err(e) => Err(e),
        Ok((v, n)) => match McsResult::spec_from_u8(v) {
            Some(r) => Ok((r, n)),
            None => Err(ErrorKind::ParseError),
        },
    }
}

fn read_result(reader: &mut BerReader) -> (r: Result<McsResult>)
    ensures
        crate::ber::consumed(*old(reader), *final(reader)),
        reads(r, parse_result(old(reader).rest()), old(reader).rest(), final(reader).rest()),
{
    let code = reader.read_enumerated()?;
    match McsResult::from_u8(code) {
        Some(r) => Ok(r),
        None => Err(PduError::parse("invalid MCS result code")),
    }
}

/// Appends `content` under [APPLICATION `tag`].
fn put_application(buffer: &mut Vec<u8>, tag: u8, content: &BerWriter)
    ensures
        final(buffer)@ == old(buffer)@ + ber_tlv(CLASS_APPLICATION | tag, content@),
{
    let mut w = BerWriter::new();
    w.write_application_tag(tag, content.as_bytes());
    assert(w@ =~= ber_tlv(CLASS_APPLICATION | tag, content@));
    put_bytes(buffer, w.as_bytes());
}

// ---------------------------------------------------------------------------
// Erect Domain, Attach User

/// Erect Domain Request: sub-height and sub-interval.
#[derive(Debug, Clone, Copy, PartialEq, Eq)]
pub struct ErectDomainRequest {
    pub sub_height: u32,
    pub sub_interval: u32,
}

impl ErectDomainRequest {
    pub open spec fn spec_bytes(&self) -> Seq<u8> {
        ber_tlv(
            CLASS_APPLICATION | MCS_ERECT_DOMAIN_REQUEST,
            ber_integer(self.sub_height) + ber_integer(self.sub_interval),
        )
    }

    pub open spec fn spec_parse(s: Seq<u8>) -> core::result::Result<(ErectDomainRequest, int), ErrorKind> {
        match parse_envelope(s, CLASS_APPLICATION | MCS_ERECT_DOMAIN_REQUEST) {
            Err(e) => Err(e),
            Ok((b, n)) => match parse_integer(b) {
                Err(e) => Err(e),
                Ok((h, n1)) => match parse_integer(b.skip(n1)) {
                    Err(e) => Err(e),
                    Ok((i, _)) => Ok((ErectDomainRequest { sub_height: h, sub_interval: i }, n)),
                },
            },
        }
    }

    pub fn new(sub_height: u32, sub_interval: u32) -> (r: Self)
        ensures
            r == (ErectDomainRequest { sub_height, sub_interval }),
    {
        ErectDomainRequest { sub_height, sub_interval }
    }

    /// Sub-height and sub-interval zero.
    pub fn default_request() -> (r: Self)
        ensures
            r == (ErectDomainRequest { sub_height: 0, sub_interval: 0 }),
    {
        Self::new(0, 0)
    }

    pub fn encode(&self, buffer: &mut Vec<u8>) -> (r: Result<()>)
        ensures
            r is Ok,
            final(buffer)@ == old(buffer)@ + self.spec_bytes(),
    {
        let mut w = BerWriter::new();
        w.write_integer(self.sub_height);
        w.write_integer(self.sub_interval);
        assert(w@ =~= ber_integer(self.sub_height) + ber_integer(self.sub_interval));
        put_application(buffer, MCS_ERECT_DOMAIN_REQUEST, &w);
        Ok(())
    }

    pub fn decode(buffer: &mut BerReader) -> (r: Result<Self>)
        ensures
            crate::ber::consumed(*old(buffer), *final(buffer)),
            reads(r, Self::spec_parse(old(buffer).rest()), old(buffer).rest(), final(buffer).rest()),
    {
        let body = buffer.read_envelope(CLASS_APPLICATION | MCS_ERECT_DOMAIN_REQUEST)?;
        let mut inner = BerReader::new(body.as_slice());
        let sub_height = inner.read_integer()?;
        let sub_interval = inner.read_integer()?;
        Ok(ErectDomainRequest { sub_height, sub_interval })
    }

    pub fn size(&self) -> (n: usize)
        ensures
            n == self.spec_bytes().len(),
    {
        let mut v: Vec<u8> = Vec::new();
        let _ = self.encode(&mut v);
        v.len()
    }
}

/// Attach User Request: an empty [APPLICATION 10].
#[derive(Debug, Clone, Copy, PartialEq, Eq)]
pub struct AttachUserRequest;

impl AttachUserRequest {
    pub open spec fn spec_bytes(&self) -> Seq<u8> {
        ber_tlv(CLASS_APPLICATION | MCS_ATTACH_USER_REQUEST, Seq::empty())
    }

    pub open spec fn spec_parse(s: Seq<u8>) -> core::result::Result<(AttachUserRequest, int), ErrorKind> {
        match parse_envelope(s, CLASS_APPLICATION | MCS_ATTACH_USER_REQUEST) {
            Err(e) => Err(e),
            Ok((_, n)) => Ok((AttachUserRequest, n)),
        }
    }

    pub fn new() -> (r: Self) {
        AttachUserRequest
    }

    pub fn encode(&self, buffer: &mut Vec<u8>) -> (r: Result<()>)
        ensures
            r is Ok,
            final(buffer)@ == old(buffer)@ + self.spec_bytes(),
    {
        let w = BerWriter::new();
        put_application(buffer, MCS_ATTACH_USER_REQUEST, &w);
        Ok(())
    }

    pub fn decode(buffer: &mut BerReader) -> (r: Result<Self>)
        ensures
            crate::ber::consumed(*old(buffer), *final(buffer)),
            reads(r, Self::spec_parse(old(buffer).rest()), old(buffer).rest(), final(buffer).rest()),
    {
        let _ = buffer.read_envelope(CLASS_APPLICATION | MCS_ATTACH_USER_REQUEST)?;
        Ok(AttachUserRequest)
    }

    pub fn size(&self) -> (n: usize)
        ensures
            n == self.spec_bytes().len(),
    {
        let mut v: Vec<u8> = Vec::new();
        let _ = self.encode(&mut v);
        v.len()
    }
}

impl Default for AttachUserRequest {
    fn default() -> (r: Self) {
        AttachUserRequest
    }
}

/// Attach User Confirm: a result and, optionally, the initiator's user id.
#[derive(Debug, Clone, Copy, PartialEq, Eq)]
pub struct AttachUserConfirm {
    pub result: McsResult,
    pub user_id: Option<u16>,
}

/// The bytes of an optional trailing INTEGER.
pub open spec fn optional_integer(v: Option<u16>) -> Seq<u8> {
    match v {
        Some(x) => ber_integer(x as u32),
        None => Seq::empty(),
    }
}

/// An optional trailing INTEGER: present exactly when bytes are left.
pub open spec fn parse_optional(s: Seq<u8>) -> core::result::Result<Option<u16>, ErrorKind> {
    if s.len() > 0 {
        match parse_integer(s) {
            Err(e) => Err(e),
            Ok((v, _)) => Ok(Some(#[verifier::truncate] (v as u16))),
        }
    } else {
        Ok(None)
    }
}

fn read_optional(reader: &mut BerReader) -> (r: Result<Option<u16>>)
    ensures
        crate::ber::consumed(*old(reader), *final(reader)),
        match parse_optional(old(reader).rest()) {
            Ok(v) => r == Ok::<Option<u16>, PduError>(v),
            Err(e) => r is Err && r->Err_0.spec_kind() == e,
        },
{
    if reader.remaining() > 0 {
        let v = reader.read_integer()?;
        Ok(Some(#[verifier::truncate] (v as u16)))
    } else {
        Ok(None)
    }
}

fn write_optional(w: &mut BerWriter, v: Option<u16>)
    ensures
        final(w)@ == old(w)@ + optional_integer(v),
{
    match v {
        Some(x) => w.write_integer(x as u32),
        None => {
            assert(old(w)@ + optional_integer(v) =~= old(w)@);
        },
    }
}

impl AttachUserConfirm {
    pub open spec fn spec_bytes(&self) -> Seq<u8> {
        ber_tlv(
            CLASS_APPLICATION | MCS_ATTACH_USER_CONFIRM,
            ber_enumerated(self.result.spec_as_u8()) + optional_integer(self.user_id),
        )
    }

    pub open spec fn spec_parse(s: Seq<u8>) -> core::result::Result<(AttachUserConfirm, int), ErrorKind> {
        match parse_envelope(s, CLASS_APPLICATION | MCS_ATTACH_USER_CONFIRM) {
            Err(e) => Err(e),
            Ok((b, n)) => match parse_result(b) {
                Err(e) => Err(e),
                Ok((r, n1)) => match parse_optional(b.skip(n1)) {
                    Err(e) => Err(e),
                    Ok(u) => Ok((AttachUserConfirm { result: r, user_id: u }, n)),
                },
            },
        }
    }

    pub fn new(result: McsResult, user_id: Option<u16>) -> (r: Self)
        ensures
            r == (AttachUserConfirm { result, user_id }),
    {
        AttachUserConfirm { result, user_id }
    }

    /// Success, with the new user's id.
    pub fn success(user_id: u16) -> (r: Self)
        ensures
            r == (AttachUserConfirm { result: McsResult::RtSuccessful, user_id: Some(user_id) }),
    {
        Self::new(McsResult::RtSuccessful, Some(user_id))
    }

    /// Failure, without a user id.
    pub fn failure(result: McsResult) -> (r: Self)
        ensures
            r == (AttachUserConfirm { result, user_id: None }),
    {
        Self::new(result, None)
    }

    pub fn encode(&self, buffer: &mut Vec<u8>) -> (r: Result<()>)
        ensures
            r is Ok,
            final(buffer)@ == old(buffer)@ + self.spec_bytes(),
    {
        let mut w = BerWriter::new();
        w.write_enumerated(self.result.as_u8());
        write_optional(&mut w, self.user_id);
        assert(w@ =~= ber_enumerated(self.result.spec_as_u8()) + optional_integer(self.user_id));
        put_application(buffer, MCS_ATTACH_USER_CONFIRM, &w);
        Ok(())
    }

    pub fn decode(buffer: &mut BerReader) -> (r: Result<Self>)
        ensures
            crate::ber::consumed(*old(buffer), *final(buffer)),
            reads(r, Self::spec_parse(old(buffer).rest()), old(buffer).rest(), final(buffer).rest()),
    {
        let body = buffer.read_envelope(CLASS_APPLICATION | MCS_ATTACH_USER_CONFIRM)?;
        let mut inner = BerReader::new(body.as_slice());
        let result = read_result(&mut inner)?;
        let user_id = read_optional(&mut inner)?;
        Ok(AttachUserConfirm { result, user_id })
    }

    pub fn size(&self) -> (n: usize)
        ensures
            n == self.spec_bytes().len(),
    {
        let mut v: Vec<u8> = Vec::new();
        let _ = self.encode(&mut v);
        v.len()
    }
}

// ---------------------------------------------------------------------------
// Channel Join

/// Channel Join Request: the user and the channel it asks to join.
#[derive(Debug, Clone, Copy, PartialEq, Eq)]
pub struct ChannelJoinRequest {
    pub user_id: u16,
    pub channel_id: u16,
}

impl ChannelJoinRequest {
    pub open spec fn spec_bytes(&self) -> Seq<u8> {
        ber_tlv(
            CLASS_APPLICATION | MCS_CHANNEL_JOIN_REQUEST,
            ber_integer(self.user_id as u32) + ber_integer(self.channel_id as u32),
        )
    }

    pub open spec fn spec_parse(s: Seq<u8>) -> core::result::Result<(ChannelJoinRequest, int), ErrorKind> {
        match parse_envelope(s, CLASS_APPLICATION | MCS_CHANNEL_JOIN_REQUEST) {
            Err(e) => Err(e),
            Ok((b, n)) => match parse_integer(b) {
                Err(e) => Err(e),
                Ok((u, n1)) => match parse_integer(b.skip(n1)) {
                    Err(e) => Err(e),
                    Ok((c, _)) => Ok((ChannelJoinRequest { user_id: u as u16, channel_id: c as u16 }, n)),
                },
            },
        }
    }

    pub fn new(user_id: u16, channel_id: u16) -> (r: Self)
        ensures
            r == (ChannelJoinRequest { user_id, channel_id }),
    {
        ChannelJoinRequest { user_id, channel_id }
    }

    pub fn encode(&self, buffer: &mut Vec<u8>) -> (r: Result<()>)
        ensures
            r is Ok,
            final(buffer)@ == old(buffer)@ + self.spec_bytes(),
    {
        let mut w = BerWriter::new();
        w.write_integer(self.user_id as u32);
        w.write_integer(self.channel_id as u32);
        assert(w@ =~= ber_integer(self.user_id as u32) + ber_integer(self.channel_id as u32));
        put_application(buffer, MCS_CHANNEL_JOIN_REQUEST, &w);
        Ok(())
    }

    pub fn decode(buffer: &mut BerReader) -> (r: Result<Self>)
        ensures
            crate::ber::consumed(*old(buffer), *final(buffer)),
            reads(r, Self::spec_parse(old(buffer).rest()), old(buffer).rest(), final(buffer).rest()),
    {
        let body = buffer.read_envelope(CLASS_APPLICATION | MCS_CHANNEL_JOIN_REQUEST)?;
        let mut inner = BerReader::new(body.as_slice());
        let user_id = inner.read_integer()?;
        let channel_id = inner.read_integer()?;
        Ok(ChannelJoinRequest { user_id: #[verifier::truncate] (user_id as u16), channel_id: channel_id as u16 })
    }

    pub fn size(&self) -> (n: usize)
        ensures
            n == self.spec_bytes().len(),
    {
        let mut v: Vec<u8> = Vec::new();
        let _ = self.encode(&mut v);
        v.len()
    }
}

/// Channel Join Confirm: result, user, requested channel and, optionally, the
/// channel actually joined.
#[derive(Debug, Clone, Copy, PartialEq, Eq)]
pub struct ChannelJoinConfirm {
    pub result: McsResult,
    pub user_id: u16,
    pub requested_channel_id: u16,
    pub channel_id: Option<u16>,
}

impl ChannelJoinConfirm {
    pub open spec fn spec_bytes(&self) -> Seq<u8> {
        ber_tlv(
            CLASS_APPLICATION | MCS_CHANNEL_JOIN_CONFIRM,
            ber_enumerated(self.result.spec_as_u8()) + ber_integer(self.user_id as u32)
                + ber_integer(self.requested_channel_id as u32) + optional_integer(self.channel_id),
        )
    }

    pub open spec fn spec_parse(s: Seq<u8>) -> core::result::Result<(ChannelJoinConfirm, int), ErrorKind> {
        match parse_envelope(s, CLASS_APPLICATION | MCS_CHANNEL_JOIN_CONFIRM) {
            Err(e) => Err(e),
            Ok((b, n)) => match parse_result(b) {
                Err(e) => Err(e),
                Ok((r, n1)) => match parse_integer(b.skip(n1)) {
                    Err(e) => Err(e),
                    Ok((u, n2)) => match parse_integer(b.skip(n1).skip(n2)) {
                        Err(e) => Err(e),
                        Ok((q, n3)) => match parse_optional(b.skip(n1).skip(n2).skip(n3)) {
                            Err(e) => Err(e),
                            Ok(c) => Ok((
                                ChannelJoinConfirm {
                                    result: r,
                                    user_id: u as u16,
                                    requested_channel_id: q as u16,
                                    channel_id: c,
                                },
                                n,
                            )),
                        },
                    },
                },
            },
        }
    }

    pub fn new(result: McsResult, user_id: u16, requested_channel_id: u16, channel_id: Option<u16>) -> (r: Self)
        ensures
            r == (ChannelJoinConfirm { result, user_id, requested_channel_id, channel_id }),
    {
        ChannelJoinConfirm { result, user_id, requested_channel_id, channel_id }
    }

    /// Success: the requested channel was joined.
    pub fn success(user_id: u16, channel_id: u16) -> (r: Self)
        ensures
            r == (ChannelJoinConfirm {
                result: McsResult::RtSuccessful,
                user_id,
                requested_channel_id: channel_id,
                channel_id: Some(channel_id),
            }),
    {
        Self::new(McsResult::RtSuccessful, user_id, channel_id, Some(channel_id))
    }

    /// Failure: no channel joined.
    pub fn failure(result: McsResult, user_id: u16, requested_channel_id: u16) -> (r: Self)
        ensures
            r == (ChannelJoinConfirm { result, user_id, requested_channel_id, channel_id: None }),
    {
        Self::new(result, user_id, requested_channel_id, None)
    }

    pub fn encode(&self, buffer: &mut Vec<u8>) -> (r: Result<()>)
        ensures
            r is Ok,
            final(buffer)@ == old(buffer)@ + self.spec_bytes(),
    {
        let mut w = BerWriter::new();
        w.write_enumerated(self.result.as_u8());
        w.write_integer(self.user_id as u32);
        w.write_integer(self.requested_channel_id as u32);
        write_optional(&mut w, self.channel_id);
        assert(w@ =~= ber_enumerated(self.result.spec_as_u8()) + ber_integer(self.user_id as u32)
            + ber_integer(self.requested_channel_id as u32) + optional_integer(self.channel_id));
        put_application(buffer, MCS_CHANNEL_JOIN_CONFIRM, &w);
        Ok(())
    }

    pub fn decode(buffer: &mut BerReader) -> (r: Result<Self>)
        ensures
            crate::ber::consumed(*old(buffer), *final(buffer)),
            reads(r, Self::spec_parse(old(buffer).rest()), old(buffer).rest(), final(buffer).rest()),
    {
        let body = buffer.read_envelope(CLASS_APPLICATION | MCS_CHANNEL_JOIN_CONFIRM)?;
        let mut inner = BerReader::new(body.as_slice());
        let result = read_result(&mut inner)?;
        let user_id = inner.read_integer()?;
        let requested_channel_id = inner.read_integer()?;
        let channel_id = read_optional(&mut inner)?;
        Ok(ChannelJoinConfirm {
            result,
            user_id: #[verifier::truncate] (user_id as u16),
            requested_channel_id: #[verifier::truncate] (requested_channel_id as u16),
            channel_id,
        })
    }

    pub fn size(&self) -> (n: usize)
        ensures
            n == self.spec_bytes().len(),
    {
        let mut v: Vec<u8> = Vec::new();
        let _ = self.encode(&mut v);
        v.len()
    }
}

// ---------------------------------------------------------------------------
// Connect-Initial, Connect-Response

/// The eight MCS domain parameters.
#[derive(Debug, Clone, Copy, PartialEq, Eq)]
pub struct DomainParameters {
    pub max_channel_ids: u32,
    pub max_user_ids: u32,
    pub max_token_ids: u32,
    pub num_priorities: u32,
    pub min_throughput: u32,
    pub max_height: u32,
    pub max_mcspdu_size: u32,
    pub protocol_version: u32,
}

impl DomainParameters {
    pub open spec fn spec_bytes(&self) -> Seq<u8> {
        ber_tlv(
            TAG_SEQUENCE,
            ber_integer(self.max_channel_ids) + ber_integer(self.max_user_ids) + ber_integer(
                self.max_token_ids,
            ) + ber_integer(self.num_priorities) + ber_integer(self.min_throughput) + ber_integer(
                self.max_height,
            ) + ber_integer(self.max_mcspdu_size) + ber_integer(self.protocol_version),
        )
    }

    pub open spec fn from_seq(v: Seq<u32>) -> DomainParameters {
        DomainParameters {
            max_channel_ids: v[0],
            max_user_ids: v[1],
            max_token_ids: v[2],
            num_priorities: v[3],
            min_throughput: v[4],
            max_height: v[5],
            max_mcspdu_size: v[6],
            protocol_version: v[7],
        }
    }

    /// Any tag byte and a length (neither checked), then eight INTEGERs.
    #[verifier::opaque]
    pub open spec fn spec_parse(s: Seq<u8>) -> core::result::Result<(DomainParameters, int), ErrorKind> {
        if s.len() < 1 {
            Err(ErrorKind::InsufficientData { needed: 1, available: 0 })
        } else {
            match parse_length(s.skip(1)) {
                Err(e) => Err(e),
                Ok((_, c)) => match parse_integers(s.skip(1).skip(c), 8) {
                    Err(e) => Err(e),
                    Ok((v, m)) => Ok((Self::from_seq(v), 1 + c + m)),
                },
            }
        }
    }

    pub fn new(
        max_channel_ids: u32,
        max_user_ids: u32,
        max_token_ids: u32,
        num_priorities: u32,
        min_throughput: u32,
        max_height: u32,
        max_mcspdu_size: u32,
        protocol_version: u32,
    ) -> (r: Self)
        ensures
            r == (DomainParameters {
                max_channel_ids,
                max_user_ids,
                max_token_ids,
                num_priorities,
                min_throughput,
                max_height,
                max_mcspdu_size,
                protocol_version,
            }),
    {
        DomainParameters {
            max_channel_ids,
            max_user_ids,
            max_token_ids,
            num_priorities,
            min_throughput,
            max_height,
            max_mcspdu_size,
            protocol_version,
        }
    }

    /// The target preset (34, 2, 0, 1, 0, 1, 65535, 2).
    pub fn target() -> (r: Self)
        ensures
            r == (DomainParameters {
                max_channel_ids: 34,
                max_user_ids: 2,
                max_token_ids: 0,
                num_priorities: 1,
                min_throughput: 0,
                max_height: 1,
                max_mcspdu_size: 65535,
                protocol_version: 2,
            }),
    {
        Self::new(34, 2, 0, 1, 0, 1, 65535, 2)
    }

    /// The minimum preset (1, 1, 1, 1, 0, 1, 1056, 2).
    pub fn minimum() -> (r: Self)
        ensures
            r == (DomainParameters {
                max_channel_ids: 1,
                max_user_ids: 1,
                max_token_ids: 1,
                num_priorities: 1,
                min_throughput: 0,
                max_height: 1,
                max_mcspdu_size: 1056,
                protocol_version: 2,
            }),
    {
        Self::new(1, 1, 1, 1, 0, 1, 1056, 2)
    }

    /// The maximum preset (65535, 64535, 65535, 1, 0, 1, 65535, 2).
    pub fn maximum() -> (r: Self)
        ensures
            r == (DomainParameters {
                max_channel_ids: 65535,
                max_user_ids: 64535,
                max_token_ids: 65535,
                num_priorities: 1,
                min_throughput: 0,
                max_height: 1,
                max_mcspdu_size: 65535,
                protocol_version: 2,
            }),
    {
        Self::new(65535, 64535, 65535, 1, 0, 1, 65535, 2)
    }

    /// Appends the SEQUENCE of eight INTEGERs.
    pub fn encode(&self, writer: &mut BerWriter)
        ensures
            final(writer)@ == old(writer)@ + self.spec_bytes(),
    {
        let mut w = BerWriter::new();
        w.write_integer(self.max_channel_ids);
        w.write_integer(self.max_user_ids);
        w.write_integer(self.max_token_ids);
        w.write_integer(self.num_priorities);
        w.write_integer(self.min_throughput);
        w.write_integer(self.max_height);
        w.write_integer(self.max_mcspdu_size);
        w.write_integer(self.protocol_version);
        assert(w@ =~= ber_integer(self.max_channel_ids) + ber_integer(self.max_user_ids)
            + ber_integer(self.max_token_ids) + ber_integer(self.num_priorities) + ber_integer(
            self.min_throughput,
        ) + ber_integer(self.max_height) + ber_integer(self.max_mcspdu_size) + ber_integer(
            self.protocol_version,
        ));
        writer.write_sequence(w.as_bytes());
    }

    /// Reads a tag and a length, then eight INTEGERs.
    pub fn decode(reader: &mut BerReader) -> (r: Result<Self>)
        ensures
            crate::ber::consumed(*old(reader), *final(reader)),
            reads(r, Self::spec_parse(old(reader).rest()), old(reader).rest(), final(reader).rest()),
    {
        reveal(DomainParameters::spec_parse);
        let ghost s = old(reader).rest();
        let _ = reader.read_tag()?;
        let _ = reader.read_length()?;
        let v = reader.read_integers(8)?;
        let ghost c = parse_length(s.skip(1))->Ok_0.1;
        let ghost m = parse_integers(s.skip(1).skip(c), 8)->Ok_0.1;
        proof {
            lemma_integers_len(s.skip(1).skip(c), 8);
        }
        assert(s.skip(1).skip(c).skip(m) =~= s.skip(1 + c + m));
        Ok(DomainParameters {
            max_channel_ids: v[0],
            max_user_ids: v[1],
            max_token_ids: v[2],
            num_priorities: v[3],
            min_throughput: v[4],
            max_height: v[5],
            max_mcspdu_size: v[6],
            protocol_version: v[7],
        })
    }
}

impl Default for DomainParameters {
    fn default() -> (r: Self)
        ensures
            r.max_channel_ids == 34,
    {
        Self::target()
    }
}

/// What a [`ConnectInitial`] holds.
pub struct ConnectInitialModel {
    pub calling_domain: Seq<u8>,
    pub called_domain: Seq<u8>,
    pub upward_flag: bool,
    pub target_parameters: DomainParameters,
    pub minimum_parameters: DomainParameters,
    pub maximum_parameters: DomainParameters,
    pub user_data: Seq<u8>,
}

/// Connect-Initial: domain selectors, upward flag, three parameter sets and
/// the opaque conference-create user data.
#[derive(Debug, Clone, PartialEq, Eq)]
pub struct ConnectInitial {
    pub calling_domain: Vec<u8>,
    pub called_domain: Vec<u8>,
    pub upward_flag: bool,
    pub target_parameters: DomainParameters,
    pub minimum_parameters: DomainParameters,
    pub maximum_parameters: DomainParameters,
    pub user_data: Vec<u8>,
}

impl View for ConnectInitial {
    type V = ConnectInitialModel;

    open spec fn view(&self) -> ConnectInitialModel {
        ConnectInitialModel {
            calling_domain: self.calling_domain@,
            called_domain: self.called_domain@,
            upward_flag: self.upward_flag,
            target_parameters: self.target_parameters,
            minimum_parameters: self.minimum_parameters,
            maximum_parameters: self.maximum_parameters,
            user_data: self.user_data@,
        }
    }
}

impl ConnectInitialModel {
    /// The body inside the application envelope.
    pub open spec fn content(&self) -> Seq<u8> {
        ber_octet_string(self.calling_domain) + ber_octet_string(self.called_domain) + ber_boolean(
            self.upward_flag,
        ) + self.target_parameters.spec_bytes() + self.minimum_parameters.spec_bytes()
            + self.maximum_parameters.spec_bytes() + ber_octet_string(self.user_data)
    }

    pub open spec fn spec_bytes(&self) -> Seq<u8> {
        ber_tlv(CLASS_APPLICATION | MCS_CONNECT_INITIAL, self.content())
    }
}

/// A BOOLEAN: false exactly when its octet is zero.
pub open spec fn parse_boolean(s: Seq<u8>) -> core::result::Result<(bool, int), ErrorKind> {
    match parse_octet(s, TAG_BOOLEAN) {
        Err(e) => Err(e),
        Ok((v, n)) => Ok((v != 0, n)),
    }
}

impl ConnectInitial {
    #[verifier::opaque]
    pub open spec fn spec_parse(s: Seq<u8>) -> core::result::Result<(ConnectInitialModel, int), ErrorKind> {
        match parse_envelope(s, CLASS_APPLICATION | MCS_CONNECT_INITIAL) {
            Err(e) => Err(e),
            Ok((b0, n)) => match parse_octet_string(b0) {
                Err(e) => Err(e),
                Ok((calling, n1)) => {
                    let b1 = b0.skip(n1);
                    match parse_octet_string(b1) {
                        Err(e) => Err(e),
                        Ok((called, n2)) => {
                            let b2 = b1.skip(n2);
                            match parse_boolean(b2) {
                                Err(e) => Err(e),
                                Ok((up, n3)) => {
                                    let b3 = b2.skip(n3);
                                    match DomainParameters::spec_parse(b3) {
                                        Err(e) => Err(e),
                                        Ok((t, n4)) => {
                                            let b4 = b3.skip(n4);
                                            match DomainParameters::spec_parse(b4) {
                                                Err(e) => Err(e),
                                                Ok((mn, n5)) => {
                                                    let b5 = b4.skip(n5);
                                                    match DomainParameters::spec_parse(b5) {
                                                        Err(e) => Err(e),
                                                        Ok((mx, n6)) => {
                                                            let b6 = b5.skip(n6);
                                                            match parse_octet_string(b6) {
                                                                Err(e) => Err(e),
                                                                Ok((ud, _)) => Ok((
                                                                    ConnectInitialModel {
                                                                        calling_domain: calling,
                                                                        called_domain: called,
                                                                        upward_flag: up,
                                                                        target_parameters: t,
                                                                        minimum_parameters: mn,
                                                                        maximum_parameters: mx,
                                                                        user_data: ud,
                                                                    },
                                                                    n,
                                                                )),
                                                            }
                                                        },
                                                    }
                                                },
                                            }
                                        },
                                    }
                                },
                            }
                        },
                    }
                },
            },
        }
    }

    /// Selectors [1], upward flag set, the three presets, and `user_data`.
    pub fn new(user_data: Vec<u8>) -> (r: Self)
        ensures
            r@ == (ConnectInitialModel {
                calling_domain: seq![1u8],
                called_domain: seq![1u8],
                upward_flag: true,
                target_parameters: DomainParameters::target_spec(),
                minimum_parameters: DomainParameters::minimum_spec(),
                maximum_parameters: DomainParameters::maximum_spec(),
                user_data: user_data@,
            }),
    {
        Self::with_parameters(
            DomainParameters::target(),
            DomainParameters::minimum(),
            DomainParameters::maximum(),
            user_data,
        )
    }

    /// Selectors [1], upward flag set, and the given parameter sets.
    pub fn with_parameters(
        target: DomainParameters,
        minimum: DomainParameters,
        maximum: DomainParameters,
        user_data: Vec<u8>,
    ) -> (r: Self)
        ensures
            r@ == (ConnectInitialModel {
                calling_domain: seq![1u8],
                called_domain: seq![1u8],
                upward_flag: true,
                target_parameters: target,
                minimum_parameters: minimum,
                maximum_parameters: maximum,
                user_data: user_data@,
            }),
    {
        let r = ConnectInitial {
            calling_domain: vec![1u8],
            called_domain: vec![1u8],
            upward_flag: true,
            target_parameters: target,
            minimum_parameters: minimum,
            maximum_parameters: maximum,
            user_data,
        };
        assert(r.calling_domain@ =~= seq![1u8]);
        assert(r.called_domain@ =~= seq![1u8]);
        r
    }

    pub fn encode(&self, buffer: &mut Vec<u8>) -> (r: Result<()>)
        ensures
            r is Ok,
            final(buffer)@ == old(buffer)@ + self@.spec_bytes(),
    {
        let mut w = BerWriter::new();
        w.write_octet_string(self.calling_domain.as_slice());
        w.write_octet_string(self.called_domain.as_slice());
        w.write_boolean(self.upward_flag);
        self.target_parameters.encode(&mut w);
        self.minimum_parameters.encode(&mut w);
        self.maximum_parameters.encode(&mut w);
        w.write_octet_string(self.user_data.as_slice());
        let ghost m = self@;
        assert(w@ =~= ber_octet_string(m.calling_domain) + ber_octet_string(m.called_domain)
            + ber_boolean(m.upward_flag) + m.target_parameters.spec_bytes()
            + m.minimum_parameters.spec_bytes() + m.maximum_parameters.spec_bytes()
            + ber_octet_string(m.user_data));
        put_application(buffer, MCS_CONNECT_INITIAL, &w);
        Ok(())
    }

    pub fn decode(buffer: &mut BerReader) -> (r: Result<Self>)
        ensures
            crate::ber::consumed(*old(buffer), *final(buffer)),
            reads_view(r, Self::spec_parse(old(buffer).rest()), old(buffer).rest(), final(buffer).rest()),
    {
        reveal(ConnectInitial::spec_parse);
        let body = buffer.read_envelope(CLASS_APPLICATION | MCS_CONNECT_INITIAL)?;
        let mut inner = BerReader::new(body.as_slice());
        let calling_domain = inner.read_octet_string()?;
        let called_domain = inner.read_octet_string()?;
        let upward_flag = inner.read_boolean()?;
        let target_parameters = DomainParameters::decode(&mut inner)?;
        let minimum_parameters = DomainParameters::decode(&mut inner)?;
        let maximum_parameters = DomainParameters::decode(&mut inner)?;
        let user_data = inner.read_octet_string()?;
        Ok(ConnectInitial {
            calling_domain,
            called_domain,
            upward_flag,
            target_parameters,
            minimum_parameters,
            maximum_parameters,
            user_data,
        })
    }

    pub fn size(&self) -> (n: usize)
        ensures
            n == self@.spec_bytes().len(),
    {
        let mut v: Vec<u8> = Vec::new();
        let _ = self.encode(&mut v);
        v.len()
    }
}

impl DomainParameters {
    pub open spec fn target_spec() -> DomainParameters {
        DomainParameters {
            max_channel_ids: 34,
            max_user_ids: 2,
            max_token_ids: 0,
            num_priorities: 1,
            min_throughput: 0,
            max_height: 1,
            max_mcspdu_size: 65535,
            protocol_version: 2,
        }
    }

    pub open spec fn minimum_spec() -> DomainParameters {
        DomainParameters {
            max_channel_ids: 1,
            max_user_ids: 1,
            max_token_ids: 1,
            num_priorities: 1,
            min_throughput: 0,
            max_height: 1,
            max_mcspdu_size: 1056,
            protocol_version: 2,
        }
    }

    pub open spec fn maximum_spec() -> DomainParameters {
        DomainParameters {
            max_channel_ids: 65535,
            max_user_ids: 64535,
            max_token_ids: 65535,
            num_priorities: 1,
            min_throughput: 0,
            max_height: 1,
            max_mcspdu_size: 65535,
            protocol_version: 2,
        }
    }
}

/// What a [`ConnectResponse`] holds.
pub struct ConnectResponseModel {
    pub result: McsResult,
    pub called_connect_id: u32,
    pub domain_parameters: DomainParameters,
    pub user_data: Seq<u8>,
}

/// Connect-Response: result, connect id, the agreed parameters and user data.
#[derive(Debug, Clone, PartialEq, Eq)]
pub struct ConnectResponse {
    pub result: McsResult,
    pub called_connect_id: u32,
    pub domain_parameters: DomainParameters,
    pub user_data: Vec<u8>,
}

impl View for ConnectResponse {
    type V = ConnectResponseModel;

    open spec fn view(&self) -> ConnectResponseModel {
        ConnectResponseModel {
            result: self.result,
            called_connect_id: self.called_connect_id,
            domain_parameters: self.domain_parameters,
            user_data: self.user_data@,
        }
    }
}

impl ConnectResponseModel {
    /// The body inside the application envelope.
    pub open spec fn content(&self) -> Seq<u8> {
        ber_enumerated(self.result.spec_as_u8()) + ber_integer(self.called_connect_id)
            + self.domain_parameters.spec_bytes() + ber_octet_string(self.user_data)
    }

    pub open spec fn spec_bytes(&self) -> Seq<u8> {
        ber_tlv(CLASS_APPLICATION | MCS_CONNECT_RESPONSE, self.content())
    }
}

impl ConnectResponse {
    pub open spec fn spec_parse(s: Seq<u8>) -> core::result::Result<(ConnectResponseModel, int), ErrorKind> {
        match parse_envelope(s, CLASS_APPLICATION | MCS_CONNECT_RESPONSE) {
            Err(e) => Err(e),
            Ok((b0, n)) => match parse_result(b0) {
                Err(e) => Err(e),
                Ok((res, n1)) => {
                    let b1 = b0.skip(n1);
                    match parse_integer(b1) {
                        Err(e) => Err(e),
                        Ok((id, n2)) => {
                            let b2 = b1.skip(n2);
                            match DomainParameters::spec_parse(b2) {
                                Err(e) => Err(e),
                                Ok((dp, n3)) => {
                                    let b3 = b2.skip(n3);
                                    match parse_octet_string(b3) {
                                        Err(e) => Err(e),
                                        Ok((ud, _)) => Ok((
                                            ConnectResponseModel {
                                                result: res,
                                                called_connect_id: id,
                                                domain_parameters: dp,
                                                user_data: ud,
                                            },
                                            n,
                                        )),
                                    }
                                },
                            }
                        },
                    }
                },
            },
        }
    }

    pub fn new(result: McsResult, called_connect_id: u32, domain_parameters: DomainParameters, user_data: Vec<u8>) -> (r: Self)
        ensures
            r@ == (ConnectResponseModel { result, called_connect_id, domain_parameters, user_data: user_data@ }),
    {
        ConnectResponse { result, called_connect_id, domain_parameters, user_data }
    }

    /// Success, connect id 0, the target preset.
    pub fn success(user_data: Vec<u8>) -> (r: Self)
        ensures
            r@ == (ConnectResponseModel {
                result: McsResult::RtSuccessful,
                called_connect_id: 0,
                domain_parameters: DomainParameters::target_spec(),
                user_data: user_data@,
            }),
    {
        Self::new(McsResult::RtSuccessful, 0, DomainParameters::target(), user_data)
    }

    pub fn encode(&self, buffer: &mut Vec<u8>) -> (r: Result<()>)
        ensures
            r is Ok,
            final(buffer)@ == old(buffer)@ + self@.spec_bytes(),
    {
        let mut w = BerWriter::new();
        w.write_enumerated(self.result.as_u8());
        w.write_integer(self.called_connect_id);
        self.domain_parameters.encode(&mut w);
        w.write_octet_string(self.user_data.as_slice());
        let ghost m = self@;
        assert(w@ =~= ber_enumerated(m.result.spec_as_u8()) + ber_integer(m.called_connect_id)
            + m.domain_parameters.spec_bytes() + ber_octet_string(m.user_data));
        put_application(buffer, MCS_CONNECT_RESPONSE, &w);
        Ok(())
    }

    pub fn decode(buffer: &mut BerReader) -> (r: Result<Self>)
        ensures
            crate::ber::consumed(*old(buffer), *final(buffer)),
            reads_view(r, Self::spec_parse(old(buffer).rest()), old(buffer).rest(), final(buffer).rest()),
    {
        let body = buffer.read_envelope(CLASS_APPLICATION | MCS_CONNECT_RESPONSE)?;
        let mut inner = BerReader::new(body.as_slice());
        let result = read_result(&mut inner)?;
        let called_connect_id = inner.read_integer()?;
        let domain_parameters = DomainParameters::decode(&mut inner)?;
        let user_data = inner.read_octet_string()?;
        Ok(ConnectResponse { result, called_connect_id, domain_parameters, user_data })
    }

    pub fn size(&self) -> (n: usize)
        ensures
            n == self@.spec_bytes().len(),
    {
        let mut v: Vec<u8> = Vec::new();
        let _ = self.encode(&mut v);
        v.len()
    }
}

/// An optional INTEGER is read back as written.
pub proof fn lemma_optional_round_trip(v: Option<u16>)
    ensures
        parse_optional(optional_integer(v)) == Ok::<Option<u16>, ErrorKind>(v),
{
    match v {
        Some(x) => {
            lemma_integer_rest(x as u32, Seq::empty());
            assert(ber_integer(x as u32) + Seq::<u8>::empty() =~= ber_integer(x as u32));
        },
        None => {},
    }
}

/// A result code is read back as written.
pub proof fn lemma_result_round_trip(r: McsResult, tail: Seq<u8>)
    ensures
        parse_result(ber_enumerated(r.spec_as_u8()) + tail) == Ok::<(McsResult, int), ErrorKind>((r, 3)),
        (ber_enumerated(r.spec_as_u8()) + tail).skip(3) == tail,
        ber_enumerated(r.spec_as_u8()).len() == 3,
{
    lemma_octet_round_trip(TAG_ENUMERATED, r.spec_as_u8(), tail);
}

impl ErectDomainRequest {
    /// A request with both values below 2^31 is read back as written, and the
    /// bytes after it stay unread.
    pub proof fn lemma_round_trip(self, tail: Seq<u8>)
        requires
            self.sub_height < 0x8000_0000,
            self.sub_interval < 0x8000_0000,
        ensures
            Self::spec_parse(self.spec_bytes() + tail) == Ok::<(ErectDomainRequest, int), ErrorKind>(
                (self, self.spec_bytes().len() as int),
            ),
    {
        let c = ber_integer(self.sub_height) + ber_integer(self.sub_interval);
        lemma_integer_len(self.sub_height);
        lemma_integer_len(self.sub_interval);
        lemma_envelope_round_trip(CLASS_APPLICATION | MCS_ERECT_DOMAIN_REQUEST, c, tail);
        lemma_integer_rest(self.sub_height, ber_integer(self.sub_interval));
        lemma_integer_rest(self.sub_interval, Seq::empty());
        assert(ber_integer(self.sub_interval) + Seq::<u8>::empty() =~= ber_integer(self.sub_interval));
    }
}

impl AttachUserRequest {
    /// The request is read back, and the bytes after it stay unread.
    pub proof fn lemma_round_trip(self, tail: Seq<u8>)
        ensures
            Self::spec_parse(self.spec_bytes() + tail) == Ok::<(AttachUserRequest, int), ErrorKind>(
                (self, self.spec_bytes().len() as int),
            ),
    {
        lemma_envelope_round_trip(CLASS_APPLICATION | MCS_ATTACH_USER_REQUEST, Seq::empty(), tail);
    }
}

impl AttachUserConfirm {
    /// Every confirm is read back as written, and the bytes after it stay unread.
    pub proof fn lemma_round_trip(self, tail: Seq<u8>)
        ensures
            Self::spec_parse(self.spec_bytes() + tail) == Ok::<(AttachUserConfirm, int), ErrorKind>(
                (self, self.spec_bytes().len() as int),
            ),
    {
        let o = optional_integer(self.user_id);
        let c = ber_enumerated(self.result.spec_as_u8()) + o;
        if let Some(x) = self.user_id {
            lemma_integer_len(x as u32);
        }
        lemma_envelope_round_trip(CLASS_APPLICATION | MCS_ATTACH_USER_CONFIRM, c, tail);
        lemma_result_round_trip(self.result, o);
        lemma_optional_round_trip(self.user_id);
    }
}

impl ChannelJoinRequest {
    /// Every request is read back as written, and the bytes after it stay unread.
    pub proof fn lemma_round_trip(self, tail: Seq<u8>)
        ensures
            Self::spec_parse(self.spec_bytes() + tail) == Ok::<(ChannelJoinRequest, int), ErrorKind>(
                (self, self.spec_bytes().len() as int),
            ),
    {
        let a = ber_integer(self.user_id as u32);
        let b = ber_integer(self.channel_id as u32);
        lemma_integer_len(self.user_id as u32);
        lemma_integer_len(self.channel_id as u32);
        lemma_envelope_round_trip(CLASS_APPLICATION | MCS_CHANNEL_JOIN_REQUEST, a + b, tail);
        lemma_integer_rest(self.user_id as u32, b);
        lemma_integer_rest(self.channel_id as u32, Seq::empty());
        assert(b + Seq::<u8>::empty() =~= b);
    }
}

impl ChannelJoinConfirm {
    /// Every confirm is read back as written, and the bytes after it stay unread.
    #[verifier::spinoff_prover]
    #[verifier::rlimit(100)]
    pub proof fn lemma_round_trip(self, tail: Seq<u8>)
        ensures
            Self::spec_parse(self.spec_bytes() + tail) == Ok::<(ChannelJoinConfirm, int), ErrorKind>(
                (self, self.spec_bytes().len() as int),
            ),
    {
        let e = ber_enumerated(self.result.spec_as_u8());
        let a = ber_integer(self.user_id as u32);
        let b = ber_integer(self.requested_channel_id as u32);
        let o = optional_integer(self.channel_id);
        lemma_integer_len(self.user_id as u32);
        lemma_integer_len(self.requested_channel_id as u32);
        if let Some(x) = self.channel_id {
            lemma_integer_len(x as u32);
        }
        lemma_envelope_round_trip(CLASS_APPLICATION | MCS_CHANNEL_JOIN_CONFIRM, e + a + b + o, tail);
        assert(e + a + b + o =~= e + (a + (b + o)));
        lemma_result_round_trip(self.result, a + (b + o));
        lemma_integer_rest(self.user_id as u32, b + o);
        lemma_integer_rest(self.requested_channel_id as u32, o);
        lemma_optional_round_trip(self.channel_id);
    }
}

impl DomainParameters {
    /// The eight values in order.
    pub open spec fn values(&self) -> Seq<u32> {
        seq![
            self.max_channel_ids,
            self.max_user_ids,
            self.max_token_ids,
            self.num_priorities,
            self.min_throughput,
            self.max_height,
            self.max_mcspdu_size,
            self.protocol_version,
        ]
    }

    /// Every value is below 2^31.
    pub open spec fn in_range(&self) -> bool {
        forall|i: int| 0 <= i < 8 ==> #[trigger] self.values()[i] < 0x8000_0000
    }

    /// Parameters whose values are all below 2^31 are read back as written,
    /// and the bytes after them stay unread.
    pub proof fn lemma_round_trip(self, tail: Seq<u8>)
        requires
            self.in_range(),
        ensures
            Self::spec_parse(self.spec_bytes() + tail) == Ok::<(DomainParameters, int), ErrorKind>(
                (self, self.spec_bytes().len() as int),
            ),
            (self.spec_bytes() + tail).skip(self.spec_bytes().len() as int) == tail,
    {
        reveal(DomainParameters::spec_parse);
        let v = self.values();
        reveal_with_fuel(integers_bytes, 9);
        let c = integers_bytes(v);
        assert(c =~= ber_integer(self.max_channel_ids) + ber_integer(self.max_user_ids) + ber_integer(
            self.max_token_ids,
        ) + ber_integer(self.num_priorities) + ber_integer(self.min_throughput) + ber_integer(
            self.max_height,
        ) + ber_integer(self.max_mcspdu_size) + ber_integer(self.protocol_version));
        lemma_integer_len(self.max_channel_ids);
        lemma_integer_len(self.max_user_ids);
        lemma_integer_len(self.max_token_ids);
        lemma_integer_len(self.num_priorities);
        lemma_integer_len(self.min_throughput);
        lemma_integer_len(self.max_height);
        lemma_integer_len(self.max_mcspdu_size);
        lemma_integer_len(self.protocol_version);
        let s = self.spec_bytes() + tail;
        lemma_header_round_trip(TAG_SEQUENCE, c, tail);
        let h = 1 + ber_length(c.len()).len();
        assert(s.skip(1).skip(h - 1) =~= c + tail);
        lemma_length_round_trip(c.len(), c + tail);
        assert(s.skip(1) =~= ber_length(c.len()) + (c + tail));
        lemma_integers_round_trip(v, tail);
        assert(Self::from_seq(v) == self);
        assert(s.skip(self.spec_bytes().len() as int) =~= tail);
    }
}

/// A SEQUENCE of eight INTEGERs stays well under 2^32 bytes.
proof fn lemma_domain_len(d: DomainParameters)
    ensures
        d.spec_bytes().len() <= 64,
{
    lemma_integer_len(d.max_channel_ids);
    lemma_integer_len(d.max_user_ids);
    lemma_integer_len(d.max_token_ids);
    lemma_integer_len(d.num_priorities);
    lemma_integer_len(d.min_throughput);
    lemma_integer_len(d.max_height);
    lemma_integer_len(d.max_mcspdu_size);
    lemma_integer_len(d.protocol_version);
}

/// A BOOLEAN is read back as written.
proof fn lemma_boolean_round_trip(b: bool, tail: Seq<u8>)
    ensures
        parse_boolean(ber_boolean(b) + tail) == Ok::<(bool, int), ErrorKind>((b, 3)),
        (ber_boolean(b) + tail).skip(3) == tail,
        ber_boolean(b).len() == 3,
{
    lemma_octet_round_trip(TAG_BOOLEAN, if b { 0xFFu8 } else { 0u8 }, tail);
}

/// A Connect-Initial whose parameters are all below 2^31 and whose body
/// length fits the four length octets the reader takes is read back as
/// written, and the bytes after it stay unread.
#[verifier::spinoff_prover]
#[verifier::rlimit(100)]
pub proof fn lemma_connect_initial_round_trip(m: ConnectInitialModel, tail: Seq<u8>)
    requires
        m.target_parameters.in_range(),
        m.minimum_parameters.in_range(),
        m.maximum_parameters.in_range(),
        m.content().len() < 4294967296,
    ensures
        ConnectInitial::spec_parse(m.spec_bytes() + tail) == Ok::<(ConnectInitialModel, int), ErrorKind>(
            (m, m.spec_bytes().len() as int),
        ),
{
    reveal(ConnectInitial::spec_parse);
    let o1 = ber_octet_string(m.calling_domain);
    let o2 = ber_octet_string(m.called_domain);
    let bo = ber_boolean(m.upward_flag);
    let t = m.target_parameters.spec_bytes();
    let mn = m.minimum_parameters.spec_bytes();
    let mx = m.maximum_parameters.spec_bytes();
    let o3 = ber_octet_string(m.user_data);
    let c = o1 + o2 + bo + t + mn + mx + o3;
    lemma_domain_len(m.target_parameters);
    lemma_domain_len(m.minimum_parameters);
    lemma_domain_len(m.maximum_parameters);
    lemma_tlv_len(TAG_OCTET_STRING, m.calling_domain);
    lemma_tlv_len(TAG_OCTET_STRING, m.called_domain);
    lemma_tlv_len(TAG_OCTET_STRING, m.user_data);
    lemma_envelope_round_trip(CLASS_APPLICATION | MCS_CONNECT_INITIAL, c, tail);
    let r6 = o3;
    let r5 = mx + r6;
    let r4 = mn + r5;
    let r3 = t + r4;
    let r2 = bo + r3;
    let r1 = o2 + r2;
    assert(c =~= o1 + r1);
    lemma_octet_string_round_trip(m.calling_domain, r1);
    lemma_octet_string_round_trip(m.called_domain, r2);
    lemma_boolean_round_trip(m.upward_flag, r3);
    m.target_parameters.lemma_round_trip(r4);
    m.minimum_parameters.lemma_round_trip(r5);
    m.maximum_parameters.lemma_round_trip(r6);
    lemma_octet_string_round_trip(m.user_data, Seq::empty());
    assert(o3 + Seq::<u8>::empty() =~= o3);
}

/// A Connect-Response whose connect id and parameters are below 2^31 and
/// whose body length fits the four length octets the reader takes is read
/// back as written, and the bytes after it stay unread.
#[verifier::spinoff_prover]
#[verifier::rlimit(100)]
pub proof fn lemma_connect_response_round_trip(m: ConnectResponseModel, tail: Seq<u8>)
    requires
        m.called_connect_id < 0x8000_0000,
        m.domain_parameters.in_range(),
        m.content().len() < 4294967296,
    ensures
        ConnectResponse::spec_parse(m.spec_bytes() + tail) == Ok::<(ConnectResponseModel, int), ErrorKind>(
            (m, m.spec_bytes().len() as int),
        ),
{
    let e = ber_enumerated(m.result.spec_as_u8());
    let i = ber_integer(m.called_connect_id);
    let d = m.domain_parameters.spec_bytes();
    let o = ber_octet_string(m.user_data);
    let c = e + i + d + o;
    lemma_integer_len(m.called_connect_id);
    lemma_domain_len(m.domain_parameters);
    lemma_tlv_len(TAG_OCTET_STRING, m.user_data);
    lemma_envelope_round_trip(CLASS_APPLICATION | MCS_CONNECT_RESPONSE, c, tail);
    let r3 = o;
    let r2 = d + r3;
    let r1 = i + r2;
    assert(c =~= e + r1);
    lemma_result_round_trip(m.result, r1);
    lemma_integer_rest(m.called_connect_id, r2);
    m.domain_parameters.lemma_round_trip(r3);
    lemma_octet_string_round_trip(m.user_data, Seq::empty());
    assert(o + Seq::<u8>::empty() =~= o);
}

} // verus!
