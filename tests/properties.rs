use pentardp_rs::ber::{BerReader, BerWriter};
use pentardp_rs::capability::{CapabilitySet, GeneralCapability};
use pentardp_rs::client_info::{read_unicode_string, write_unicode_string, ClientInfoPdu};
use pentardp_rs::error::{ErrorKind, PduError};
use pentardp_rs::graphics::{BitmapData, BitmapUpdate, UpdatePdu};
use pentardp_rs::input::{InputEvent, InputEventPdu, KeyboardEvent, MouseEvent, SyncEvent};
use pentardp_rs::mcs::{AttachUserConfirm, ChannelJoinConfirm, ErectDomainRequest, McsResult};
use pentardp_rs::orders::{DrawingOrder, OpaqueRectOrder, OrdersUpdate};
use pentardp_rs::share::{DataPduType, PduType, ShareControlHeader, ShareDataHeader};
use pentardp_rs::tpkt::{TpktHeader, TpktPacket};
use pentardp_rs::x224::{ConnectionRequest, DataHeader, DataPdu, Protocol, RdpNegotiation};

#[test]
fn tpkt_version_two_is_unsupported() {
    let data = [0x02u8, 0x00, 0x00, 0x10, 0xAA];
    let mut r = BerReader::new(&data);
    let e = TpktHeader::decode(&mut r).unwrap_err();
    assert_eq!(e.kind(), ErrorKind::UnsupportedVersion(2));
}

#[test]
fn tpkt_length_below_four_is_invalid() {
    for len in 0u8..4 {
        let data = [0x03u8, 0x00, 0x00, len];
        let mut r = BerReader::new(&data);
        let e = TpktHeader::decode(&mut r).unwrap_err();
        assert_eq!(e.kind(), ErrorKind::InvalidLength { expected: 4, actual: len as usize });
    }
}

#[test]
fn x224_data_header_with_request_type_is_refused() {
    let data = [0x02u8, 0xE0, 0x00];
    let mut r = BerReader::new(&data);
    let e = DataHeader::decode(&mut r).unwrap_err();
    assert!(matches!(e, PduError::InvalidPduType(0xE0)));
}

#[test]
fn ber_indefinite_length_is_a_parse_error() {
    let data = [0x80u8, 0x01, 0x02];
    let mut r = BerReader::new(&data);
    assert_eq!(r.read_length().unwrap_err().kind(), ErrorKind::ParseError);
    let data = [0x85u8, 0x01, 0x02, 0x03, 0x04, 0x05];
    let mut r = BerReader::new(&data);
    assert_eq!(r.read_length().unwrap_err().kind(), ErrorKind::ParseError);
}

#[test]
fn negotiation_length_other_than_eight_is_invalid() {
    let data = [0x01u8, 0x00, 0x09, 0x00, 0x01, 0x00, 0x00, 0x00];
    let mut r = BerReader::new(&data);
    let e = RdpNegotiation::decode(&mut r).unwrap_err();
    assert_eq!(e.kind(), ErrorKind::InvalidLength { expected: 8, actual: 9 });
}

#[test]
fn unknown_capability_is_kept_byte_for_byte() {
    let input = vec![0xFFu8, 0x00, 0x08, 0x00, 0xDE, 0xAD, 0xBE, 0xEF, 0x77, 0x66];
    let mut r = BerReader::new(&input);
    let cap = CapabilitySet::decode(&mut r).unwrap();
    assert_eq!(cap, CapabilitySet::Unknown(0x00FF, vec![0xDE, 0xAD, 0xBE, 0xEF]));
    assert_eq!(r.remaining(), 2);
    let mut out = Vec::new();
    cap.encode(&mut out).unwrap();
    assert_eq!(out, input[..8].to_vec());
}

#[test]
fn capability_length_below_header_is_invalid() {
    let input = [0x01u8, 0x00, 0x02, 0x00];
    let mut r = BerReader::new(&input);
    let e = CapabilitySet::decode(&mut r).unwrap_err();
    assert_eq!(e.kind(), ErrorKind::InvalidLength { expected: 4, actual: 2 });
}

#[test]
fn general_capability_set_round_trip() {
    let cap = CapabilitySet::General(GeneralCapability::new());
    let mut out = Vec::new();
    cap.encode(&mut out).unwrap();
    assert_eq!(out.len(), 24);
    assert_eq!(&out[..4], &[0x01, 0x00, 0x18, 0x00]);
    let mut r = BerReader::new(&out);
    assert_eq!(CapabilitySet::decode(&mut r).unwrap(), cap);
}

#[test]
fn tpkt_five_byte_payload() {
    let p = TpktPacket::new(vec![0x01, 0x02, 0x03, 0x04, 0x05]);
    let mut out = Vec::new();
    p.encode(&mut out).unwrap();
    assert_eq!(out, vec![0x03, 0x00, 0x00, 0x09, 0x01, 0x02, 0x03, 0x04, 0x05]);
    assert_eq!(p.size(), 9);
}

#[test]
fn tpkt_truncated_payload_is_insufficient() {
    let data = [0x03u8, 0x00, 0x00, 0x09, 0x01, 0x02];
    let mut r = BerReader::new(&data);
    let e = TpktPacket::decode(&mut r).unwrap_err();
    assert_eq!(e.kind(), ErrorKind::InsufficientData { needed: 5, available: 2 });
}

#[test]
fn connection_request_with_cookie_and_tls() {
    let cr = ConnectionRequest::new(0x1234)
        .with_cookie("testuser")
        .with_negotiation(Protocol::Ssl.as_u32());
    let mut out = Vec::new();
    cr.encode(&mut out).unwrap();
    assert_eq!(out.len(), 7 + 27 + 8);
    assert_eq!(out[0] as usize, out.len() - 1);
    let mut r = BerReader::new(&out);
    let d = ConnectionRequest::decode(&mut r).unwrap();
    assert_eq!(d.cookie(), Some("Cookie: mstshash=testuser\r\n"));
    assert_eq!(d.rdp_negotiation().unwrap().selected_protocol, 1);
    assert_eq!(d.header().src_ref, 0x1234);
    assert_eq!(d.header().dst_ref, 0);
}

#[test]
fn channel_join_confirm_success_bytes() {
    let c = ChannelJoinConfirm::success(1001, 1003);
    let mut out = Vec::new();
    c.encode(&mut out).unwrap();
    assert_eq!(
        out,
        vec![
            0x4F, 0x0F, 0x0A, 0x01, 0x00, 0x02, 0x02, 0x03, 0xE9, 0x02, 0x02, 0x03, 0xEB, 0x02,
            0x02, 0x03, 0xEB,
        ]
    );
    let mut r = BerReader::new(&out);
    let d = ChannelJoinConfirm::decode(&mut r).unwrap();
    assert_eq!(d.result, McsResult::RtSuccessful);
    assert_eq!(d.channel_id, Some(1003));
}

#[test]
fn mcs_decoder_leaves_bytes_after_the_envelope() {
    let c = AttachUserConfirm::failure(McsResult::RtTooManyUsers);
    let mut out = Vec::new();
    c.encode(&mut out).unwrap();
    let n = out.len();
    out.extend_from_slice(&[0x99, 0x98]);
    let mut r = BerReader::new(&out);
    let d = AttachUserConfirm::decode(&mut r).unwrap();
    assert_eq!(d, c);
    assert_eq!(d.user_id, None);
    assert_eq!(r.position(), n);
    assert_eq!(r.remaining(), 2);
}

#[test]
fn mcs_unknown_result_code_is_a_parse_error() {
    let data = [0x6Bu8, 0x03, 0x0A, 0x01, 0x10];
    let mut r = BerReader::new(&data);
    assert_eq!(AttachUserConfirm::decode(&mut r).unwrap_err().kind(), ErrorKind::ParseError);
}

#[test]
fn mcs_wrong_application_tag_is_a_parse_error() {
    let mut out = Vec::new();
    ErectDomainRequest::new(1, 2).encode(&mut out).unwrap();
    let mut r = BerReader::new(&out);
    assert_eq!(ChannelJoinConfirm::decode(&mut r).unwrap_err().kind(), ErrorKind::ParseError);
}

#[test]
fn client_info_byte_counts() {
    let pdu = ClientInfoPdu::new("admin".to_string(), "pass".to_string())
        .with_domain("WORKGROUP".to_string());
    let mut out = Vec::new();
    pdu.encode(&mut out).unwrap();
    assert_eq!(u16::from_le_bytes([out[8], out[9]]), 20);
    assert_eq!(u16::from_le_bytes([out[10], out[11]]), 12);
    assert_eq!(u16::from_le_bytes([out[12], out[13]]), 10);
    assert_eq!(out.len(), pdu.size());
    let mut r = BerReader::new(&out);
    let d = ClientInfoPdu::decode(&mut r).unwrap();
    assert_eq!(d.domain, "WORKGROUP");
    assert_eq!(d.user_name, "admin");
    assert_eq!(d.password, "pass");
    assert!(d.extended_info.is_none());
}

#[test]
fn unicode_string_counts_utf16_units() {
    let mut out = Vec::new();
    write_unicode_string(&mut out, "a\u{1F600}").unwrap();
    assert_eq!(out, vec![0x61, 0x00, 0x3D, 0xD8, 0x00, 0xDE, 0x00, 0x00]);
    let mut r = BerReader::new(&out);
    assert_eq!(read_unicode_string(&mut r, 8).unwrap(), "a\u{1F600}");
}

#[test]
fn unicode_string_with_lone_surrogate_is_a_parse_error() {
    let data = [0x00u8, 0xD8, 0x00, 0x00];
    let mut r = BerReader::new(&data);
    assert_eq!(read_unicode_string(&mut r, 4).unwrap_err().kind(), ErrorKind::ParseError);
}

#[test]
fn layered_erect_domain_request() {
    let mut mcs = Vec::new();
    ErectDomainRequest::new(1, 2).encode(&mut mcs).unwrap();
    let mut x224 = Vec::new();
    DataPdu::new(mcs).encode(&mut x224).unwrap();
    let mut tpkt = Vec::new();
    TpktPacket::new(x224).encode(&mut tpkt).unwrap();
    let mut r = BerReader::new(&tpkt);
    let t = TpktPacket::decode(&mut r).unwrap();
    let mut r = BerReader::new(t.payload());
    let d = DataPdu::decode(&mut r).unwrap();
    let mut r = BerReader::new(d.payload());
    let e = ErectDomainRequest::decode(&mut r).unwrap();
    assert_eq!(e.sub_height, 1);
    assert_eq!(e.sub_interval, 2);
}

#[test]
fn bitmap_update_two_rectangles() {
    let u = BitmapUpdate::new(vec![
        BitmapData::uncompressed(0, 0, 8, 8, 8, vec![0xFF; 64]),
        BitmapData::uncompressed(8, 0, 8, 8, 8, vec![0x00; 64]),
    ]);
    assert_eq!(u.size(), 166);
    let mut out = Vec::new();
    u.encode(&mut out).unwrap();
    assert_eq!(out.len(), 166);
    let mut r = BerReader::new(&out);
    let d = BitmapUpdate::decode(&mut r).unwrap();
    assert_eq!(d.rectangles[0].dest_right, 7);
    assert_eq!(d.rectangles[1].dest_left, 8);
    assert_eq!(d.rectangles[1].dest_right, 15);
    assert_eq!(d.rectangles[0].bitmap_data[0], 0xFF);
    assert_eq!(d.rectangles[1].bitmap_data[0], 0x00);
}

#[test]
fn ber_length_boundaries() {
    let cases: Vec<(usize, Vec<u8>)> = vec![
        (127, vec![127]),
        (128, vec![0x81, 0x80]),
        (256, vec![0x82, 0x01, 0x00]),
        (65535, vec![0x82, 0xFF, 0xFF]),
    ];
    for (n, bytes) in cases {
        let mut w = BerWriter::new();
        w.write_length(n);
        assert_eq!(w.as_bytes(), &bytes[..]);
        let mut r = BerReader::new(&bytes);
        assert_eq!(r.read_length().unwrap(), n);
    }
}

#[test]
fn ber_integer_boundaries() {
    let mut w = BerWriter::new();
    w.write_integer(0);
    assert_eq!(w.as_bytes(), &[0x02, 0x01, 0x00]);
    let mut w = BerWriter::new();
    w.write_integer(128);
    assert_eq!(w.as_bytes(), &[0x02, 0x02, 0x00, 0x80]);
    let mut w = BerWriter::new();
    w.write_integer(0x7FFF_FFFF);
    assert_eq!(w.as_bytes(), &[0x02, 0x04, 0x7F, 0xFF, 0xFF, 0xFF]);
}

#[test]
fn ber_short_reads_report_the_shortfall() {
    let data = [0x02u8, 0x03, 0x01];
    let mut r = BerReader::new(&data);
    assert_eq!(
        r.read_integer().unwrap_err().kind(),
        ErrorKind::InsufficientData { needed: 3, available: 1 }
    );
    let data: [u8; 0] = [];
    let mut r = BerReader::new(&data);
    assert_eq!(r.read_tag().unwrap_err().kind(), ErrorKind::InsufficientData { needed: 1, available: 0 });
}

#[test]
fn share_headers_leave_excess_bytes() {
    let h = ShareDataHeader::new(0x1234_5678, DataPduType::Control, 20);
    let mut out = Vec::new();
    h.encode(&mut out).unwrap();
    assert_eq!(out, vec![0x78, 0x56, 0x34, 0x12, 0x00, 0x01, 0x14, 0x00, 0x14, 0x00, 0x00, 0x00]);
    out.push(0xAB);
    let mut r = BerReader::new(&out);
    assert_eq!(ShareDataHeader::decode(&mut r).unwrap(), h);
    assert_eq!(r.remaining(), 1);
}

#[test]
fn share_control_unknown_type_is_a_parse_error() {
    let data = [0x06u8, 0x00, 0x12, 0x00, 0xE9, 0x03];
    let mut r = BerReader::new(&data);
    assert_eq!(ShareControlHeader::decode(&mut r).unwrap_err().kind(), ErrorKind::ParseError);
    let short = [0x06u8, 0x00, 0x17];
    let mut r = BerReader::new(&short);
    assert_eq!(
        ShareControlHeader::decode(&mut r).unwrap_err().kind(),
        ErrorKind::InsufficientData { needed: 6, available: 3 }
    );
    let h = ShareControlHeader::new(6, PduType::Data, 1);
    let mut out = Vec::new();
    h.encode(&mut out).unwrap();
    assert_eq!(out, vec![0x06, 0x00, 0x17, 0x00, 0x01, 0x00]);
}

#[test]
fn encoding_is_deterministic() {
    let pdu = InputEventPdu::new(vec![
        InputEvent::Keyboard(KeyboardEvent::key_down(0x1E)),
        InputEvent::Mouse(MouseEvent::move_to(10, 20)),
    ]);
    let mut a = Vec::new();
    let mut b = Vec::new();
    pdu.encode(&mut a).unwrap();
    pdu.encode(&mut b).unwrap();
    assert_eq!(a, b);
    assert_eq!(a.len(), pdu.size());
    assert_eq!(a.len(), 4 + 2 * 10);
}

#[test]
fn reserved_input_event_is_a_parse_error() {
    let data = [0x00u8, 0x00, 0x02, 0x00, 1, 2, 3, 4, 5, 6];
    let mut r = BerReader::new(&data);
    assert_eq!(InputEvent::decode(&mut r).unwrap_err().kind(), ErrorKind::ParseError);
}

#[test]
fn unsupported_drawing_order_is_a_parse_error() {
    let data = [0x09u8, 0, 0, 0, 0, 0, 0, 0, 0, 0];
    let mut r = BerReader::new(&data);
    assert_eq!(DrawingOrder::decode(&mut r).unwrap_err().kind(), ErrorKind::ParseError);
}

#[test]
fn orders_update_in_update_pdu() {
    let o = OrdersUpdate::single(DrawingOrder::OpaqueRect(OpaqueRectOrder::new(-5, 10, 20, 30, 0x00FF8040)));
    let u = UpdatePdu::Orders(o);
    let mut out = Vec::new();
    u.encode(&mut out).unwrap();
    assert_eq!(out.len(), u.size());
    assert_eq!(&out[..2], &[0x00, 0x00]);
    assert_eq!(&out[7..9], &[0xFB, 0xFF]);
    let mut r = BerReader::new(&out);
    assert_eq!(UpdatePdu::decode(&mut r).unwrap(), u);
}

#[test]
fn error_texts() {
    let e = PduError::InsufficientData { needed: 12, available: 3 };
    assert_eq!(e.to_string(), "Insufficient data: need 12 bytes, got 3");
    let e = PduError::InvalidPduType(0xE0);
    assert_eq!(e.to_string(), "Invalid PDU type: 0xe0");
    let e = PduError::ParseError("bad".to_string());
    assert_eq!(e.to_string(), "Parse error: bad");
    let e = PduError::InvalidHeader("odd".to_string());
    assert_eq!(e.kind(), ErrorKind::InvalidHeader);
    assert_eq!(e.to_string(), "Invalid header: odd");
    let e = PduError::IoError("closed".to_string());
    assert_eq!(e.kind(), ErrorKind::IoError);
    assert_eq!(e.to_string(), "IO error: closed");
}

#[test]
fn negotiation_round_trip_with_flags_read_as_given() {
    let data = [0x02u8, 0x1F, 0x08, 0x00, 0x02, 0x00, 0x00, 0x00];
    let mut r = BerReader::new(&data);
    let n = RdpNegotiation::decode(&mut r).unwrap();
    assert_eq!(n.flags, 0x1F);
    assert_eq!(n.selected_protocol, 2);
    let mut out = Vec::new();
    RdpNegotiation::new_response(2).encode(&mut out).unwrap();
    assert_eq!(out, vec![0x02, 0x00, 0x08, 0x00, 0x02, 0x00, 0x00, 0x00]);
}

#[test]
fn short_negotiation_with_bad_length_is_invalid_length() {
    let data = [0x01u8, 0x00, 0x09, 0x00];
    let mut r = BerReader::new(&data);
    let e = RdpNegotiation::decode(&mut r).unwrap_err();
    assert_eq!(e.kind(), ErrorKind::InvalidLength { expected: 8, actual: 9 });
    let data = [0x01u8, 0x00, 0x08, 0x00, 0x01];
    let mut r = BerReader::new(&data);
    let e = RdpNegotiation::decode(&mut r).unwrap_err();
    assert_eq!(e.kind(), ErrorKind::InsufficientData { needed: 4, available: 1 });
}

#[test]
fn negotiation_flags_are_written_as_zero() {
    let n = RdpNegotiation { neg_type: 0x02, flags: 0x05, selected_protocol: 0x0102_0304 };
    let mut out = Vec::new();
    n.encode(&mut out).unwrap();
    assert_eq!(out, vec![0x02, 0x00, 0x08, 0x00, 0x04, 0x03, 0x02, 0x01]);
}

#[test]
fn every_input_event_takes_ten_bytes() {
    let ev = InputEvent::Sync(SyncEvent::new(SyncEvent::CAPS_LOCK));
    assert_eq!(ev.size(), 10);
    let mut out = Vec::new();
    ev.encode(&mut out).unwrap();
    assert_eq!(out, vec![0x00, 0x00, 0x00, 0x00, 0x04, 0x00, 0x00, 0x00, 0x00, 0x00]);
    let mut r = BerReader::new(&out);
    assert_eq!(InputEvent::decode(&mut r).unwrap(), ev);
    let k = InputEvent::Keyboard(KeyboardEvent::key_up(0x1E));
    assert_eq!(k.size(), 10);
}

#[test]
fn tag_mismatch_names_both_tags() {
    let data = [0x30u8, 0x01, 0x00];
    let mut r = BerReader::new(&data);
    let e = r.read_application_tag(15).unwrap_err();
    assert_eq!(e.to_string(), "Parse error: Expected tag 0x4f, got 0x30");
    let data = [0x04u8, 0x01, 0x00];
    let mut r = BerReader::new(&data);
    assert_eq!(r.read_integer().unwrap_err().to_string(), "Parse error: Expected tag 0x02, got 0x04");
}

fn through_pdu_trait<T: pentardp_rs::pdu::Pdu + PartialEq + std::fmt::Debug>(m: &T) {
    let mut out = Vec::new();
    pentardp_rs::pdu::Pdu::encode(m, &mut out).unwrap();
    assert_eq!(out.len(), pentardp_rs::pdu::Pdu::size(m));
    out.push(0xEE);
    let mut r = BerReader::new(&out);
    let d: T = pentardp_rs::pdu::Pdu::decode(&mut r).unwrap();
    assert_eq!(&d, m);
    assert_eq!(r.remaining(), 1);
}

#[test]
fn uniform_contract_round_trips() {
    through_pdu_trait(&TpktPacket::new(vec![1, 2, 3]));
    through_pdu_trait(&ChannelJoinConfirm::success(7, 1003));
    through_pdu_trait(&ConnectionRequest::new(5).with_negotiation(Protocol::Hybrid.as_u32()));
    through_pdu_trait(&InputEventPdu::single(InputEvent::Sync(SyncEvent::new(SyncEvent::NUM_LOCK))));
    let p = TpktPacket::new(vec![9]);
    let h = pentardp_rs::pdu::PduWithHeader::header(&p);
    assert_eq!(h.length, 5);
}

#[test]
fn reads_leave_the_cursor_after_what_they_consumed() {
    let mut w = BerWriter::new();
    w.write_length(300);
    w.write_integer(1001);
    w.write_boolean(true);
    w.write_enumerated(7);
    let bytes = w.into_bytes();
    let mut r = BerReader::new(&bytes);
    assert_eq!(r.read_length().unwrap(), 300);
    assert_eq!(r.position(), 3);
    assert_eq!(r.read_integer().unwrap(), 1001);
    assert_eq!(r.position(), 3 + 4);
    assert_eq!(r.read_boolean().unwrap(), true);
    assert_eq!(r.position(), 7 + 3);
    assert_eq!(r.read_enumerated().unwrap(), 7);
    assert_eq!(r.position(), 10 + 3);
    assert_eq!(r.remaining(), 0);
}

#[test]
fn opaque_capability_keeps_its_type_value() {
    let cap = CapabilitySet::Unknown(0x1234, vec![1, 2]);
    assert_eq!(cap.type_value(), 0x1234);
    assert_eq!(CapabilitySet::General(GeneralCapability::new()).type_value(), 1);
}

#[test]
fn bitmap_size_counts_the_data_whatever_the_length_field() {
    let mut b = BitmapData::uncompressed(0, 0, 2, 2, 8, vec![0; 4]);
    b.bitmap_length = 9;
    let mut out = Vec::new();
    b.encode(&mut out).unwrap();
    assert_eq!(b.size(), out.len());
    assert_eq!(out.len(), 22);
}
