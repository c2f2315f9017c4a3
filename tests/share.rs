use pentardp_rs::share::{PduType, DataPduType, ShareControlHeader, ShareDataHeader};
use pentardp_rs::ber::{BerReader};

#[test]
fn test_pdu_type() {
    assert_eq!(PduType::Data.as_u16(), 0x07);
    assert_eq!(PduType::from_u16(0x07), Some(PduType::Data));
    assert_eq!(PduType::from_u16(0xFF), None);
}

#[test]
fn test_data_pdu_type() {
    assert_eq!(DataPduType::Synchronize.as_u8(), 0x1F);
    assert_eq!(DataPduType::from_u8(0x1F), Some(DataPduType::Synchronize));
    assert_eq!(DataPduType::from_u8(0xFF), None);
}

#[test]
fn test_share_control_header_encode_decode() {
    let header = ShareControlHeader::new(100, PduType::Data, 1004);

    let mut buffer = Vec::new();
    header.encode(&mut buffer).unwrap();

    assert_eq!(buffer.len(), ShareControlHeader::SIZE);

    let mut cursor = BerReader::new(&buffer);
    let decoded = ShareControlHeader::decode(&mut cursor).unwrap();

    assert_eq!(header, decoded);
    assert_eq!(decoded.total_length, 100);
    assert_eq!(decoded.pdu_type, PduType::Data);
    assert_eq!(decoded.pdu_source, 1004);
}

#[test]
fn test_share_control_header_protocol_version() {
    let header = ShareControlHeader::new(50, PduType::ConfirmActive, 1003);

    let mut buffer = Vec::new();
    header.encode(&mut buffer).unwrap();

    // pduType field is 0x0013 | 0x0010 = 0x0013
    let mut cursor = BerReader::new(&buffer);
    cursor.take_u16_le(); // total_length
    let pdu_type_raw = cursor.take_u16_le();

    // TS_PROTOCOL_VERSION flag must be set
    assert_eq!(
        pdu_type_raw & ShareControlHeader::PROTOCOL_VERSION,
        ShareControlHeader::PROTOCOL_VERSION
    );
}

#[test]
fn test_share_data_header_encode_decode() {
    let header = ShareDataHeader::new(0x000103EA, DataPduType::Synchronize, 4);

    let mut buffer = Vec::new();
    header.encode(&mut buffer).unwrap();

    assert_eq!(buffer.len(), ShareDataHeader::SIZE);

    let mut cursor = BerReader::new(&buffer);
    let decoded = ShareDataHeader::decode(&mut cursor).unwrap();

    assert_eq!(header, decoded);
    assert_eq!(decoded.share_id, 0x000103EA);
    assert_eq!(decoded.pdu_type2, DataPduType::Synchronize);
    assert_eq!(decoded.stream_id, 1);
    assert_eq!(decoded.uncompressed_length, 4);
    assert_eq!(decoded.compressed_type, 0);
    assert_eq!(decoded.compressed_length, 0);
}

#[test]
fn test_share_data_header_roundtrip() {
    let header = ShareDataHeader {
        share_id: 0x12345678,
        stream_id: ShareDataHeader::STREAM_MED,
        uncompressed_length: 256,
        pdu_type2: DataPduType::Control,
        compressed_type: 0,
        compressed_length: 0,
    };

    let mut buffer = Vec::new();
    header.encode(&mut buffer).unwrap();

    let mut cursor = BerReader::new(&buffer);
    let decoded = ShareDataHeader::decode(&mut cursor).unwrap();

    assert_eq!(header, decoded);
}

#[test]
fn test_share_data_header_size() {
    let header = ShareDataHeader::new(0, DataPduType::FontList, 0);
    assert_eq!(header.size(), 12);
}

#[test]
fn test_share_control_header_size() {
    let header = ShareControlHeader::new(0, PduType::Data, 0);
    assert_eq!(header.size(), 6);
}

