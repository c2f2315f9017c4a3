//! The uniform contract of every message: encode, decode, size.
use vstd::prelude::*;
use crate::ber::{reads, reads_view, BerReader};
use crate::control::{ControlPdu, FontListPdu, FontMapPdu, SynchronizePdu};
use crate::error::Result;
use crate::graphics::{BitmapUpdate, PaletteUpdate, UpdatePdu, UpdatePduModel};
use crate::input::InputEventPdu;
use crate::mcs::{
    AttachUserConfirm, AttachUserRequest, ChannelJoinConfirm, ChannelJoinRequest, ConnectInitial,
    ConnectResponse, ErectDomainRequest,
};
use crate::orders::OrdersUpdate;
use crate::client_info::ClientInfoPdu;
use crate::tpkt::{TpktHeader, TpktPacket};
use crate::x224::{ConnectionConfirm, ConnectionHeader, ConnectionRequest, DataHeader, DataPdu};

verus! {

/// A protocol data unit: it appends its encoding to a buffer, is decoded
/// from a cursor, and knows the size of its encoding.
pub trait Pdu: Sized {
    /// The bytes that `encode` appends.
    spec fn encoding(&self) -> Seq<u8>;

    /// What encoding needs of the value: counts that fit their fields.
    spec fn encodable(&self) -> bool;

    /// What decoding does with the input `before`, leaving `after`.
    spec fn decodes(before: Seq<u8>, after: Seq<u8>, r: Result<Self>) -> bool;

    /// Appends the encoding; never fails.
    fn encode(&self, buffer: &mut Vec<u8>) -> (r: Result<()>)
        requires
            self.encodable(),
        ensures
            r is Ok,
            final(buffer)@ == old(buffer)@ + self.encoding(),
    ;

    /// Decodes one value from the cursor.
    fn decode(buffer: &mut BerReader) -> (r: Result<Self>)
        ensures
            crate::ber::consumed(*old(buffer), *final(buffer)),
            Self::decodes(old(buffer).rest(), final(buffer).rest(), r),
    ;

    /// The number of bytes `encode` appends.
    fn size(&self) -> (n: usize)
        requires
            self.encodable(),
        ensures
            n == self.encoding().len(),
    ;
}

/// A protocol data unit with a header of its own.
pub trait PduWithHeader: Pdu {
    type Header;

    spec fn spec_header_of(&self) -> Self::Header;

    /// The header.
    fn header(&self) -> (h: &Self::Header)
        ensures
            *h == self.spec_header_of(),
    ;
}

impl Pdu for SynchronizePdu {
    open spec fn encoding(&self) -> Seq<u8> {
        self.spec_bytes()
    }

    open spec fn encodable(&self) -> bool {
        true
    }

    open spec fn decodes(before: Seq<u8>, after: Seq<u8>, r: Result<Self>) -> bool {
        reads(r, Self::spec_parse(before), before, after)
    }

    fn encode(&self, buffer: &mut Vec<u8>) -> (r: Result<()>) {
        SynchronizePdu::encode(self, buffer)
    }

    fn decode(buffer: &mut BerReader) -> (r: Result<Self>) {
        SynchronizePdu::decode(buffer)
    }

    fn size(&self) -> (n: usize) {
        SynchronizePdu::size(self)
    }
}

impl Pdu for ControlPdu {
    open spec fn encoding(&self) -> Seq<u8> {
        self.spec_bytes()
    }

    open spec fn encodable(&self) -> bool {
        true
    }

    open spec fn decodes(before: Seq<u8>, after: Seq<u8>, r: Result<Self>) -> bool {
        reads(r, Self::spec_parse(before), before, after)
    }

    fn encode(&self, buffer: &mut Vec<u8>) -> (r: Result<()>) {
        ControlPdu::encode(self, buffer)
    }

    fn decode(buffer: &mut BerReader) -> (r: Result<Self>) {
        ControlPdu::decode(buffer)
    }

    fn size(&self) -> (n: usize) {
        ControlPdu::size(self)
    }
}

impl Pdu for FontListPdu {
    open spec fn encoding(&self) -> Seq<u8> {
        self.spec_bytes()
    }

    open spec fn encodable(&self) -> bool {
        true
    }

    open spec fn decodes(before: Seq<u8>, after: Seq<u8>, r: Result<Self>) -> bool {
        reads(r, Self::spec_parse(before), before, after)
    }

    fn encode(&self, buffer: &mut Vec<u8>) -> (r: Result<()>) {
        FontListPdu::encode(self, buffer)
    }

    fn decode(buffer: &mut BerReader) -> (r: Result<Self>) {
        FontListPdu::decode(buffer)
    }

    fn size(&self) -> (n: usize) {
        FontListPdu::size(self)
    }
}

impl Pdu for FontMapPdu {
    open spec fn encoding(&self) -> Seq<u8> {
        self.spec_bytes()
    }

    open spec fn encodable(&self) -> bool {
        true
    }

    open spec fn decodes(before: Seq<u8>, after: Seq<u8>, r: Result<Self>) -> bool {
        reads(r, Self::spec_parse(before), before, after)
    }

    fn encode(&self, buffer: &mut Vec<u8>) -> (r: Result<()>) {
        FontMapPdu::encode(self, buffer)
    }

    fn decode(buffer: &mut BerReader) -> (r: Result<Self>) {
        FontMapPdu::decode(buffer)
    }

    fn size(&self) -> (n: usize) {
        FontMapPdu::size(self)
    }
}

impl Pdu for ErectDomainRequest {
    open spec fn encoding(&self) -> Seq<u8> {
        self.spec_bytes()
    }

    open spec fn encodable(&self) -> bool {
        true
    }

    open spec fn decodes(before: Seq<u8>, after: Seq<u8>, r: Result<Self>) -> bool {
        reads(r, Self::spec_parse(before), before, after)
    }

    fn encode(&self, buffer: &mut Vec<u8>) -> (r: Result<()>) {
        ErectDomainRequest::encode(self, buffer)
    }

    fn decode(buffer: &mut BerReader) -> (r: Result<Self>) {
        ErectDomainRequest::decode(buffer)
    }

    fn size(&self) -> (n: usize) {
        ErectDomainRequest::size(self)
    }
}

impl Pdu for AttachUserRequest {
    open spec fn encoding(&self) -> Seq<u8> {
        self.spec_bytes()
    }

    open spec fn encodable(&self) -> bool {
        true
    }

    open spec fn decodes(before: Seq<u8>, after: Seq<u8>, r: Result<Self>) -> bool {
        reads(r, Self::spec_parse(before), before, after)
    }

    fn encode(&self, buffer: &mut Vec<u8>) -> (r: Result<()>) {
        AttachUserRequest::encode(self, buffer)
    }

    fn decode(buffer: &mut BerReader) -> (r: Result<Self>) {
        AttachUserRequest::decode(buffer)
    }

    fn size(&self) -> (n: usize) {
        AttachUserRequest::size(self)
    }
}

impl Pdu for AttachUserConfirm {
    open spec fn encoding(&self) -> Seq<u8> {
        self.spec_bytes()
    }

    open spec fn encodable(&self) -> bool {
        true
    }

    open spec fn decodes(before: Seq<u8>, after: Seq<u8>, r: Result<Self>) -> bool {
        reads(r, Self::spec_parse(before), before, after)
    }

    fn encode(&self, buffer: &mut Vec<u8>) -> (r: Result<()>) {
        AttachUserConfirm::encode(self, buffer)
    }

    fn decode(buffer: &mut BerReader) -> (r: Result<Self>) {
        AttachUserConfirm::decode(buffer)
    }

    fn size(&self) -> (n: usize) {
        AttachUserConfirm::size(self)
    }
}

impl Pdu for ChannelJoinRequest {
    open spec fn encoding(&self) -> Seq<u8> {
        self.spec_bytes()
    }

    open spec fn encodable(&self) -> bool {
        true
    }

    open spec fn decodes(before: Seq<u8>, after: Seq<u8>, r: Result<Self>) -> bool {
        reads(r, Self::spec_parse(before), before, after)
    }

    fn encode(&self, buffer: &mut Vec<u8>) -> (r: Result<()>) {
        ChannelJoinRequest::encode(self, buffer)
    }

    fn decode(buffer: &mut BerReader) -> (r: Result<Self>) {
        ChannelJoinRequest::decode(buffer)
    }

    fn size(&self) -> (n: usize) {
        ChannelJoinRequest::size(self)
    }
}

impl Pdu for ChannelJoinConfirm {
    open spec fn encoding(&self) -> Seq<u8> {
        self.spec_bytes()
    }

    open spec fn encodable(&self) -> bool {
        true
    }

    open spec fn decodes(before: Seq<u8>, after: Seq<u8>, r: Result<Self>) -> bool {
        reads(r, Self::spec_parse(before), before, after)
    }

    fn encode(&self, buffer: &mut Vec<u8>) -> (r: Result<()>) {
        ChannelJoinConfirm::encode(self, buffer)
    }

    fn decode(buffer: &mut BerReader) -> (r: Result<Self>) {
        ChannelJoinConfirm::decode(buffer)
    }

    fn size(&self) -> (n: usize) {
        ChannelJoinConfirm::size(self)
    }
}

impl Pdu for ConnectInitial {
    open spec fn encoding(&self) -> Seq<u8> {
        self@.spec_bytes()
    }

    open spec fn encodable(&self) -> bool {
        true
    }

    open spec fn decodes(before: Seq<u8>, after: Seq<u8>, r: Result<Self>) -> bool {
        reads_view(r, Self::spec_parse(before), before, after)
    }

    fn encode(&self, buffer: &mut Vec<u8>) -> (r: Result<()>) {
        ConnectInitial::encode(self, buffer)
    }

    fn decode(buffer: &mut BerReader) -> (r: Result<Self>) {
        ConnectInitial::decode(buffer)
    }

    fn size(&self) -> (n: usize) {
        ConnectInitial::size(self)
    }
}

impl Pdu for ConnectResponse {
    open spec fn encoding(&self) -> Seq<u8> {
        self@.spec_bytes()
    }

    open spec fn encodable(&self) -> bool {
        true
    }

    open spec fn decodes(before: Seq<u8>, after: Seq<u8>, r: Result<Self>) -> bool {
        reads_view(r, Self::spec_parse(before), before, after)
    }

    fn encode(&self, buffer: &mut Vec<u8>) -> (r: Result<()>) {
        ConnectResponse::encode(self, buffer)
    }

    fn decode(buffer: &mut BerReader) -> (r: Result<Self>) {
        ConnectResponse::decode(buffer)
    }

    fn size(&self) -> (n: usize) {
        ConnectResponse::size(self)
    }
}

impl Pdu for InputEventPdu {
    open spec fn encoding(&self) -> Seq<u8> {
        self@.spec_bytes()
    }

    open spec fn encodable(&self) -> bool {
        self@.events.len() <= 65535
    }

    open spec fn decodes(before: Seq<u8>, after: Seq<u8>, r: Result<Self>) -> bool {
        reads_view(r, Self::spec_parse(before), before, after)
    }

    fn encode(&self, buffer: &mut Vec<u8>) -> (r: Result<()>) {
        InputEventPdu::encode(self, buffer)
    }

    fn decode(buffer: &mut BerReader) -> (r: Result<Self>) {
        InputEventPdu::decode(buffer)
    }

    fn size(&self) -> (n: usize) {
        InputEventPdu::size(self)
    }
}

impl Pdu for OrdersUpdate {
    open spec fn encoding(&self) -> Seq<u8> {
        self@.spec_bytes()
    }

    open spec fn encodable(&self) -> bool {
        self@.orders.len() <= 65535
    }

    open spec fn decodes(before: Seq<u8>, after: Seq<u8>, r: Result<Self>) -> bool {
        reads_view(r, Self::spec_parse(before), before, after)
    }

    fn encode(&self, buffer: &mut Vec<u8>) -> (r: Result<()>) {
        OrdersUpdate::encode(self, buffer)
    }

    fn decode(buffer: &mut BerReader) -> (r: Result<Self>) {
        OrdersUpdate::decode(buffer)
    }

    fn size(&self) -> (n: usize) {
        OrdersUpdate::size(self)
    }
}

impl Pdu for PaletteUpdate {
    open spec fn encoding(&self) -> Seq<u8> {
        self@.spec_bytes()
    }

    open spec fn encodable(&self) -> bool {
        self.entries@.len() <= 65535
    }

    open spec fn decodes(before: Seq<u8>, after: Seq<u8>, r: Result<Self>) -> bool {
        reads_view(r, Self::spec_parse(before), before, after)
    }

    fn encode(&self, buffer: &mut Vec<u8>) -> (r: Result<()>) {
        PaletteUpdate::encode(self, buffer)
    }

    fn decode(buffer: &mut BerReader) -> (r: Result<Self>) {
        PaletteUpdate::decode(buffer)
    }

    fn size(&self) -> (n: usize) {
        PaletteUpdate::size(self)
    }
}

impl Pdu for BitmapUpdate {
    open spec fn encoding(&self) -> Seq<u8> {
        self@.spec_bytes()
    }

    open spec fn encodable(&self) -> bool {
        self@.spec_bytes().len() <= usize::MAX
    }

    open spec fn decodes(before: Seq<u8>, after: Seq<u8>, r: Result<Self>) -> bool {
        reads_view(r, Self::spec_parse(before), before, after)
    }

    fn encode(&self, buffer: &mut Vec<u8>) -> (r: Result<()>) {
        BitmapUpdate::encode(self, buffer)
    }

    fn decode(buffer: &mut BerReader) -> (r: Result<Self>) {
        BitmapUpdate::decode(buffer)
    }

    fn size(&self) -> (n: usize) {
        BitmapUpdate::size(self)
    }
}

impl Pdu for UpdatePdu {
    open spec fn encoding(&self) -> Seq<u8> {
        self@.spec_bytes()
    }

    open spec fn encodable(&self) -> bool {
        match self@ {
            UpdatePduModel::Orders(o) => o.orders.len() <= 65535,
            UpdatePduModel::Bitmap(b) => b.spec_bytes().len() <= usize::MAX - 2,
            UpdatePduModel::Palette(p) => p.entries.len() <= 65535,
            UpdatePduModel::Synchronize => true,
        }
    }

    open spec fn decodes(before: Seq<u8>, after: Seq<u8>, r: Result<Self>) -> bool {
        reads_view(r, Self::spec_parse(before), before, after)
    }

    fn encode(&self, buffer: &mut Vec<u8>) -> (r: Result<()>) {
        UpdatePdu::encode(self, buffer)
    }

    fn decode(buffer: &mut BerReader) -> (r: Result<Self>) {
        UpdatePdu::decode(buffer)
    }

    fn size(&self) -> (n: usize) {
        UpdatePdu::size(self)
    }
}

impl Pdu for ClientInfoPdu {
    open spec fn encoding(&self) -> Seq<u8> {
        self@.spec_bytes()
    }

    open spec fn encodable(&self) -> bool {
        self@.wf()
    }

    open spec fn decodes(before: Seq<u8>, after: Seq<u8>, r: Result<Self>) -> bool {
        reads_view(r, Self::spec_parse(before), before, after)
    }

    fn encode(&self, buffer: &mut Vec<u8>) -> (r: Result<()>) {
        ClientInfoPdu::encode(self, buffer)
    }

    fn decode(buffer: &mut BerReader) -> (r: Result<Self>) {
        ClientInfoPdu::decode(buffer)
    }

    fn size(&self) -> (n: usize) {
        ClientInfoPdu::size(self)
    }
}

impl Pdu for TpktPacket {
    open spec fn encoding(&self) -> Seq<u8> {
        self.spec_bytes()
    }

    open spec fn encodable(&self) -> bool {
        self.wf()
    }

    open spec fn decodes(before: Seq<u8>, after: Seq<u8>, r: Result<Self>) -> bool {
        Self::decoded(before, after, r)
    }

    fn encode(&self, buffer: &mut Vec<u8>) -> (r: Result<()>) {
        TpktPacket::encode(self, buffer)
    }

    fn decode(buffer: &mut BerReader) -> (r: Result<Self>) {
        TpktPacket::decode(buffer)
    }

    fn size(&self) -> (n: usize) {
        TpktPacket::size(self)
    }
}

impl Pdu for DataPdu {
    open spec fn encoding(&self) -> Seq<u8> {
        self.spec_bytes()
    }

    open spec fn encodable(&self) -> bool {
        self.spec_header().length_indicator == 1 && self.spec_payload().len() + 256 <= usize::MAX
    }

    open spec fn decodes(before: Seq<u8>, after: Seq<u8>, r: Result<Self>) -> bool {
        Self::decoded(before, after, r)
    }

    fn encode(&self, buffer: &mut Vec<u8>) -> (r: Result<()>) {
        DataPdu::encode(self, buffer)
    }

    fn decode(buffer: &mut BerReader) -> (r: Result<Self>) {
        DataPdu::decode(buffer)
    }

    fn size(&self) -> (n: usize) {
        DataPdu::size(self)
    }
}

impl Pdu for ConnectionRequest {
    open spec fn encoding(&self) -> Seq<u8> {
        self.spec_bytes()
    }

    open spec fn encodable(&self) -> bool {
        self.wf()
    }

    open spec fn decodes(before: Seq<u8>, after: Seq<u8>, r: Result<Self>) -> bool {
        Self::decoded(before, after, r)
    }

    fn encode(&self, buffer: &mut Vec<u8>) -> (r: Result<()>) {
        ConnectionRequest::encode(self, buffer)
    }

    fn decode(buffer: &mut BerReader) -> (r: Result<Self>) {
        ConnectionRequest::decode(buffer)
    }

    fn size(&self) -> (n: usize) {
        ConnectionRequest::size(self)
    }
}

impl Pdu for ConnectionConfirm {
    open spec fn encoding(&self) -> Seq<u8> {
        self.spec_bytes()
    }

    open spec fn encodable(&self) -> bool {
        true
    }

    open spec fn decodes(before: Seq<u8>, after: Seq<u8>, r: Result<Self>) -> bool {
        Self::decoded(before, after, r)
    }

    fn encode(&self, buffer: &mut Vec<u8>) -> (r: Result<()>) {
        ConnectionConfirm::encode(self, buffer)
    }

    fn decode(buffer: &mut BerReader) -> (r: Result<Self>) {
        ConnectionConfirm::decode(buffer)
    }

    fn size(&self) -> (n: usize) {
        ConnectionConfirm::size(self)
    }
}

impl PduWithHeader for TpktPacket {
    type Header = TpktHeader;

    open spec fn spec_header_of(&self) -> TpktHeader {
        self.spec_header()
    }

    fn header(&self) -> (h: &TpktHeader) {
        TpktPacket::header(self)
    }
}

impl PduWithHeader for DataPdu {
    type Header = DataHeader;

    open spec fn spec_header_of(&self) -> DataHeader {
        self.spec_header()
    }

    fn header(&self) -> (h: &DataHeader) {
        DataPdu::header(self)
    }
}

impl PduWithHeader for ConnectionRequest {
    type Header = ConnectionHeader;

    open spec fn spec_header_of(&self) -> ConnectionHeader {
        self.spec_header()
    }

    fn header(&self) -> (h: &ConnectionHeader) {
        ConnectionRequest::header(self)
    }
}

impl PduWithHeader for ConnectionConfirm {
    type Header = ConnectionHeader;

    open spec fn spec_header_of(&self) -> ConnectionHeader {
        self.spec_header()
    }

    fn header(&self) -> (h: &ConnectionHeader) {
        ConnectionConfirm::header(self)
    }
}

} // verus!
