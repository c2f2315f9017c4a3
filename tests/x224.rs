use pentardp_rs::x224::{PduType, X224_DATA_TYPE, DataHeader, DataPdu, X224_CONNECTION_HEADER_MIN_SIZE, RDP_NEG_REQ, RDP_NEG_RSP, RDP_NEG_DATA_SIZE, Protocol, RdpNegotiation, ConnectionRequest, ConnectionConfirm};
use pentardp_rs::ber::{BerReader};
use pentardp_rs::error::{PduError};

#[test]
fn test_data_header_new() {
    let header = DataHeader::new(true);
    assert_eq!(header.length_indicator, 1);
    assert_eq!(header.pdu_type, X224_DATA_TYPE);
    assert_eq!(header.eot, true);

    let header = DataHeader::new(false);
    assert_eq!(header.eot, false);
}

#[test]
fn test_data_header_encode_decode_with_eot() {
    let original = DataHeader::new(true);
    let mut buffer = Vec::new();
    original.encode(&mut buffer).unwrap();

    assert_eq!(buffer.len(), 2);
    assert_eq!(buffer[0], 1); // LI
    assert_eq!(buffer[1], 0xF1); // 0xF0 | 0x01

    let mut cursor = BerReader::new(&buffer);
    let decoded = DataHeader::decode(&mut cursor).unwrap();

    assert_eq!(original, decoded);
}

#[test]
fn test_data_header_encode_decode_without_eot() {
    let original = DataHeader::new(false);
    let mut buffer = Vec::new();
    original.encode(&mut buffer).unwrap();

    assert_eq!(buffer.len(), 2);
    assert_eq!(buffer[0], 1); // LI
    assert_eq!(buffer[1], 0xF0); // Data without EOT

    let mut cursor = BerReader::new(&buffer);
    let decoded = DataHeader::decode(&mut cursor).unwrap();

    assert_eq!(original, decoded);
}

#[test]
fn test_data_header_invalid_type() {
    let buffer = vec![1, 0xE0]; // Invalid PDU Type (Connection Request)
    let mut cursor = BerReader::new(&buffer);
    let result = DataHeader::decode(&mut cursor);

    assert!(matches!(result, Err(PduError::InvalidPduType(0xE0))));
}

#[test]
fn test_data_pdu_new() {
    let payload = vec![1, 2, 3, 4, 5];
    let pdu = DataPdu::new(payload.clone());

    assert_eq!(pdu.payload(), &payload[..]);
    assert_eq!(pdu.eot(), true);
    assert_eq!(pdu.size(), 7); // 2 (header) + 5 (payload)
}

#[test]
fn test_data_pdu_encode_decode() {
    let payload = vec![0x11, 0x22, 0x33, 0x44];
    let original = DataPdu::new(payload);

    let mut buffer = Vec::new();
    original.encode(&mut buffer).unwrap();

    assert_eq!(buffer.len(), 6); // 2 (header) + 4 (payload)

    let mut cursor = BerReader::new(&buffer);
    let decoded = DataPdu::decode(&mut cursor).unwrap();

    assert_eq!(original, decoded);
}

#[test]
fn test_data_pdu_roundtrip() {
    let test_cases = vec![
        (vec![], true),
        (vec![0x00], false),
        (vec![0x01, 0x02, 0x03], true),
        (vec![0xFF; 100], false),
    ];

    for (payload, eot) in test_cases {
        let original = DataPdu::new_with_eot(payload, eot);
        let mut buffer = Vec::new();
        original.encode(&mut buffer).unwrap();

        let mut cursor = BerReader::new(&buffer);
        let decoded = DataPdu::decode(&mut cursor).unwrap();

        assert_eq!(original, decoded);
        assert_eq!(decoded.eot(), eot);
    }
}

#[test]
fn test_pdu_type_from_u8() {
    assert_eq!(PduType::from_u8(0xE0), Some(PduType::ConnectionRequest));
    assert_eq!(PduType::from_u8(0xD0), Some(PduType::ConnectionConfirm));
    assert_eq!(PduType::from_u8(0x80), Some(PduType::DisconnectRequest));
    assert_eq!(PduType::from_u8(0xF0), Some(PduType::Data));
    assert_eq!(PduType::from_u8(0xF1), Some(PduType::Data)); // Includes EOT flag
    assert_eq!(PduType::from_u8(0x70), Some(PduType::Error));
    assert_eq!(PduType::from_u8(0x99), None);
}

#[test]
fn test_rdp_negotiation_request() {
    let negotiation = RdpNegotiation::new_request(Protocol::Ssl.as_u32());
    let mut buffer = Vec::new();
    negotiation.encode(&mut buffer).unwrap();

    assert_eq!(buffer.len(), RDP_NEG_DATA_SIZE);

    let mut cursor = BerReader::new(&buffer);
    let decoded = RdpNegotiation::decode(&mut cursor).unwrap();

    assert_eq!(negotiation, decoded);
    assert_eq!(decoded.neg_type, RDP_NEG_REQ);
    assert_eq!(decoded.selected_protocol, Protocol::Ssl.as_u32());
}

#[test]
fn test_rdp_negotiation_response() {
    let negotiation = RdpNegotiation::new_response(Protocol::Hybrid.as_u32());
    let mut buffer = Vec::new();
    negotiation.encode(&mut buffer).unwrap();

    let mut cursor = BerReader::new(&buffer);
    let decoded = RdpNegotiation::decode(&mut cursor).unwrap();

    assert_eq!(negotiation, decoded);
    assert_eq!(decoded.neg_type, RDP_NEG_RSP);
}

#[test]
fn test_connection_request_basic() {
    let request = ConnectionRequest::new(0x1234);

    let mut buffer = Vec::new();
    request.encode(&mut buffer).unwrap();

    assert_eq!(buffer.len(), X224_CONNECTION_HEADER_MIN_SIZE);

    let mut cursor = BerReader::new(&buffer);
    let decoded = ConnectionRequest::decode(&mut cursor).unwrap();

    assert_eq!(request, decoded);
    assert_eq!(decoded.header().src_ref, 0x1234);
    assert_eq!(decoded.header().dst_ref, 0);
}

#[test]
fn test_connection_request_with_cookie() {
    let request = ConnectionRequest::new(0x1234).with_cookie("testuser");

    let mut buffer = Vec::new();
    request.encode(&mut buffer).unwrap();

    let mut cursor = BerReader::new(&buffer);
    let decoded = ConnectionRequest::decode(&mut cursor).unwrap();

    assert_eq!(decoded.cookie(), Some("Cookie: mstshash=testuser\r\n"));
}

#[test]
fn test_connection_request_with_negotiation() {
    let request = ConnectionRequest::new(0x1234).with_negotiation(Protocol::Ssl.as_u32());

    let mut buffer = Vec::new();
    request.encode(&mut buffer).unwrap();

    let mut cursor = BerReader::new(&buffer);
    let decoded = ConnectionRequest::decode(&mut cursor).unwrap();

    assert!(decoded.rdp_negotiation().is_some());
    assert_eq!(
        decoded.rdp_negotiation().unwrap().selected_protocol,
        Protocol::Ssl.as_u32()
    );
}

#[test]
fn test_connection_request_with_cookie_and_negotiation() {
    let request = ConnectionRequest::new(0x1234)
        .with_cookie("admin")
        .with_negotiation(Protocol::Hybrid.as_u32());

    let mut buffer = Vec::new();
    request.encode(&mut buffer).unwrap();

    let mut cursor = BerReader::new(&buffer);
    let decoded = ConnectionRequest::decode(&mut cursor).unwrap();

    assert_eq!(decoded.cookie(), Some("Cookie: mstshash=admin\r\n"));
    assert!(decoded.rdp_negotiation().is_some());
    assert_eq!(
        decoded.rdp_negotiation().unwrap().selected_protocol,
        Protocol::Hybrid.as_u32()
    );
}

#[test]
fn test_connection_confirm_basic() {
    let confirm = ConnectionConfirm::new(0x1234, 0x5678);

    let mut buffer = Vec::new();
    confirm.encode(&mut buffer).unwrap();

    assert_eq!(buffer.len(), X224_CONNECTION_HEADER_MIN_SIZE);

    let mut cursor = BerReader::new(&buffer);
    let decoded = ConnectionConfirm::decode(&mut cursor).unwrap();

    assert_eq!(confirm, decoded);
    assert_eq!(decoded.header().dst_ref, 0x1234);
    assert_eq!(decoded.header().src_ref, 0x5678);
}

#[test]
fn test_connection_confirm_with_negotiation() {
    let confirm = ConnectionConfirm::new(0x1234, 0x5678).with_negotiation(Protocol::Ssl.as_u32());

    let mut buffer = Vec::new();
    confirm.encode(&mut buffer).unwrap();

    let mut cursor = BerReader::new(&buffer);
    let decoded = ConnectionConfirm::decode(&mut cursor).unwrap();

    assert!(decoded.rdp_negotiation().is_some());
    assert_eq!(
        decoded.rdp_negotiation().unwrap().selected_protocol,
        Protocol::Ssl.as_u32()
    );
}

#[test]
fn test_connection_roundtrip() {
    let request = ConnectionRequest::new(0xABCD)
        .with_cookie("testuser123")
        .with_negotiation(Protocol::HybridEx.as_u32());

    let mut buffer = Vec::new();
    request.encode(&mut buffer).unwrap();

    let mut cursor = BerReader::new(&buffer);
    let decoded = ConnectionRequest::decode(&mut cursor).unwrap();

    assert_eq!(request, decoded);
}

