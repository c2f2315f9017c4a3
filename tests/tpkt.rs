use pentardp_rs::tpkt::{TPKT_VERSION, TPKT_HEADER_SIZE, TpktHeader, TpktPacket};
use pentardp_rs::ber::{BerReader};
use pentardp_rs::error::{PduError};

#[test]
fn test_tpkt_header_new() {
    let header = TpktHeader::new(10);
    assert_eq!(header.version, TPKT_VERSION);
    assert_eq!(header.reserved, 0);
    assert_eq!(header.length, 14); // 4 (header) + 10 (payload)
    assert_eq!(header.payload_length(), 10);
}

#[test]
fn test_tpkt_header_encode_decode() {
    let original = TpktHeader::new(100);
    let mut buffer = Vec::new();
    original.encode(&mut buffer).unwrap();

    assert_eq!(buffer.len(), TPKT_HEADER_SIZE);
    assert_eq!(buffer[0], TPKT_VERSION);
    assert_eq!(buffer[1], 0);

    let mut cursor = BerReader::new(&buffer);
    let decoded = TpktHeader::decode(&mut cursor).unwrap();

    assert_eq!(original, decoded);
}

#[test]
fn test_tpkt_header_invalid_version() {
    let buffer = vec![0x02, 0x00, 0x00, 0x04]; // Wrong Version
    let mut cursor = BerReader::new(&buffer);
    let result = TpktHeader::decode(&mut cursor);

    assert!(matches!(result, Err(PduError::UnsupportedVersion(0x02))));
}

#[test]
fn test_tpkt_header_invalid_length() {
    let buffer = vec![0x03, 0x00, 0x00, 0x02]; // Too short length
    let mut cursor = BerReader::new(&buffer);
    let result = TpktHeader::decode(&mut cursor);

    assert!(matches!(
        result,
        Err(PduError::InvalidLength {
            expected: 4,
            actual: 2
        })
    ));
}

#[test]
fn test_tpkt_packet_new() {
    let payload = vec![1, 2, 3, 4, 5];
    let packet = TpktPacket::new(payload.clone());

    assert_eq!(packet.payload(), &payload[..]);
    assert_eq!(packet.size(), 9); // 4 (header) + 5 (payload)
}

#[test]
fn test_tpkt_packet_encode_decode() {
    let payload = vec![0x11, 0x22, 0x33, 0x44];
    let original = TpktPacket::new(payload);

    let mut buffer = Vec::new();
    original.encode(&mut buffer).unwrap();

    assert_eq!(buffer.len(), 8); // 4 (header) + 4 (payload)

    let mut cursor = BerReader::new(&buffer);
    let decoded = TpktPacket::decode(&mut cursor).unwrap();

    assert_eq!(original, decoded);
}

#[test]
fn test_tpkt_packet_roundtrip() {
    let test_cases = vec![vec![], vec![0x00], vec![0x01, 0x02, 0x03], vec![0xFF; 100]];

    for payload in test_cases {
        let original = TpktPacket::new(payload);
        let mut buffer = Vec::new();
        original.encode(&mut buffer).unwrap();

        let mut cursor = BerReader::new(&buffer);
        let decoded = TpktPacket::decode(&mut cursor).unwrap();

        assert_eq!(original, decoded);
    }
}

