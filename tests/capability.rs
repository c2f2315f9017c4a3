use pentardp_rs::capability::{CapabilitySetType, CapabilitySetHeader, GeneralCapability, BitmapCapability, OrderCapability, InputFlags, InputCapability, CapabilitySet};
use pentardp_rs::ber::{BerReader};

#[test]
fn test_general_capability() {
    let cap = GeneralCapability::new();

    let mut buffer = Vec::new();
    cap.encode(&mut buffer).unwrap();

    assert_eq!(buffer.len(), cap.size());

    let mut cursor = BerReader::new(&buffer[CapabilitySetHeader::SIZE..]);
    let decoded = GeneralCapability::decode_data(&mut cursor, GeneralCapability::DATA_SIZE).unwrap();

    assert_eq!(decoded.protocol_version, 0x0200);
    assert_eq!(decoded.os_major_type, 1);
    assert_eq!(decoded.refresh_rect_support, 1);
}

#[test]
fn test_general_capability_roundtrip() {
    let cap = GeneralCapability::new();

    let mut buffer = Vec::new();
    cap.encode(&mut buffer).unwrap();

    let mut cursor = BerReader::new(&buffer[CapabilitySetHeader::SIZE..]);
    let decoded = GeneralCapability::decode_data(&mut cursor, GeneralCapability::DATA_SIZE).unwrap();

    assert_eq!(cap, decoded);
}

#[test]
fn test_bitmap_capability() {
    let cap = BitmapCapability::new(1920, 1080, 32);

    let mut buffer = Vec::new();
    cap.encode(&mut buffer).unwrap();

    assert_eq!(buffer.len(), cap.size());

    let mut cursor = BerReader::new(&buffer[CapabilitySetHeader::SIZE..]);
    let decoded = BitmapCapability::decode_data(&mut cursor, BitmapCapability::DATA_SIZE).unwrap();

    assert_eq!(decoded.desktop_width, 1920);
    assert_eq!(decoded.desktop_height, 1080);
    assert_eq!(decoded.preferred_bits_per_pixel, 32);
}

#[test]
fn test_bitmap_capability_roundtrip() {
    let cap = BitmapCapability::default_1080p();

    let mut buffer = Vec::new();
    cap.encode(&mut buffer).unwrap();

    let mut cursor = BerReader::new(&buffer[CapabilitySetHeader::SIZE..]);
    let decoded = BitmapCapability::decode_data(&mut cursor, BitmapCapability::DATA_SIZE).unwrap();

    assert_eq!(cap, decoded);
}

#[test]
fn test_input_flags() {
    let flags = InputFlags::new(InputFlags::SCANCODES | InputFlags::UNICODE);
    assert!(flags.contains(InputFlags::SCANCODES));
    assert!(flags.contains(InputFlags::UNICODE));
    assert!(!flags.contains(InputFlags::MOUSEX));
}

#[test]
fn test_input_capability() {
    let cap = InputCapability::new();

    let mut buffer = Vec::new();
    cap.encode(&mut buffer).unwrap();

    assert_eq!(buffer.len(), cap.size());

    let mut cursor = BerReader::new(&buffer[CapabilitySetHeader::SIZE..]);
    let decoded = InputCapability::decode_data(&mut cursor, InputCapability::DATA_SIZE).unwrap();

    assert_eq!(decoded.keyboard_layout, 0x0409);
    assert_eq!(decoded.keyboard_type, 4);
    assert_eq!(decoded.keyboard_function_key, 12);
}

#[test]
fn test_input_capability_roundtrip() {
    let cap = InputCapability::new();

    let mut buffer = Vec::new();
    cap.encode(&mut buffer).unwrap();

    let mut cursor = BerReader::new(&buffer[CapabilitySetHeader::SIZE..]);
    let decoded = InputCapability::decode_data(&mut cursor, InputCapability::DATA_SIZE).unwrap();

    assert_eq!(cap, decoded);
}

#[test]
fn test_input_capability_with_ime() {
    let mut cap = InputCapability::new();
    cap.ime_file_name = "msime.ime".to_string();

    let mut buffer = Vec::new();
    cap.encode(&mut buffer).unwrap();

    let mut cursor = BerReader::new(&buffer[CapabilitySetHeader::SIZE..]);
    let decoded = InputCapability::decode_data(&mut cursor, InputCapability::DATA_SIZE).unwrap();

    assert_eq!(decoded.ime_file_name, "msime.ime");
}

#[test]
fn test_order_capability() {
    let cap = OrderCapability::new();

    let mut buffer = Vec::new();
    cap.encode(&mut buffer).unwrap();

    assert_eq!(buffer.len(), cap.size());

    let mut cursor = BerReader::new(&buffer[CapabilitySetHeader::SIZE..]);
    let decoded = OrderCapability::decode_data(&mut cursor, OrderCapability::DATA_SIZE).unwrap();

    assert_eq!(decoded.maximum_order_level, 1);
    assert_eq!(decoded.text_ansi_code_page, 1252);
}

#[test]
fn test_order_capability_roundtrip() {
    let cap = OrderCapability::new();

    let mut buffer = Vec::new();
    cap.encode(&mut buffer).unwrap();

    let mut cursor = BerReader::new(&buffer[CapabilitySetHeader::SIZE..]);
    let decoded = OrderCapability::decode_data(&mut cursor, OrderCapability::DATA_SIZE).unwrap();

    assert_eq!(cap, decoded);
}

#[test]
fn test_order_support_array() {
    let cap = OrderCapability::new();

    // Check that some common orders are supported
    assert_eq!(cap.order_support[0], 1); // DSTBLT
    assert_eq!(cap.order_support[1], 1); // PATBLT
    assert_eq!(cap.order_support[2], 1); // SCRBLT
}

#[test]
fn test_capability_set_type() {
    assert_eq!(CapabilitySetType::General.as_u16(), 0x0001);
    assert_eq!(
        CapabilitySetType::from_u16(0x0001),
        Some(CapabilitySetType::General)
    );
    assert_eq!(CapabilitySetType::from_u16(0xFFFF), None);
}

#[test]
fn test_capability_set_header() {
    let header = CapabilitySetHeader::new(CapabilitySetType::General, 24);

    let mut buffer = Vec::new();
    header.encode(&mut buffer).unwrap();

    assert_eq!(buffer.len(), CapabilitySetHeader::SIZE);

    let mut cursor = BerReader::new(&buffer);
    let decoded = CapabilitySetHeader::decode(&mut cursor).unwrap();

    assert_eq!(decoded.capability_set_type, CapabilitySetType::General);
    assert_eq!(decoded.length_capability, 24);
}

#[test]
fn test_unknown_capability_set() {
    let data = vec![0x01, 0x02, 0x03, 0x04];
    let cap = CapabilitySet::Unknown(0x00FF, data.clone());

    let mut buffer = Vec::new();
    cap.encode(&mut buffer).unwrap();

    assert_eq!(cap.size(), CapabilitySetHeader::SIZE + data.len());
}

