use pentardp_rs::client_info::{ClientInfoFlags, PerformanceFlags, write_unicode_string, read_unicode_string, TimeZoneInformation, ExtendedInfo, ClientInfoPdu};
use pentardp_rs::ber::{BerReader};

#[test]
fn test_client_info_flags() {
    let flags = ClientInfoFlags::new(ClientInfoFlags::MOUSE | ClientInfoFlags::UNICODE);
    assert_eq!(flags.bits(), 0x11);
    assert!(flags.contains(ClientInfoFlags::MOUSE));
    assert!(flags.contains(ClientInfoFlags::UNICODE));
    assert!(!flags.contains(ClientInfoFlags::COMPRESSION));
}

#[test]
fn test_performance_flags() {
    let flags = PerformanceFlags::new(PerformanceFlags::DISABLE_WALLPAPER | PerformanceFlags::DISABLE_THEMING);
    assert!(flags.contains(PerformanceFlags::DISABLE_WALLPAPER));
    assert!(!flags.contains(PerformanceFlags::ENABLE_FONT_SMOOTHING));
}

#[test]
fn test_time_zone_information() {
    let tz = TimeZoneInformation::utc();
    let mut buffer = Vec::new();
    tz.encode(&mut buffer).unwrap();

    assert_eq!(buffer.len(), TimeZoneInformation::SIZE);

    let mut cursor = BerReader::new(&buffer);
    let decoded = TimeZoneInformation::decode(&mut cursor).unwrap();

    assert_eq!(decoded.bias, 0);
}

#[test]
fn test_client_info_pdu_basic() {
    let pdu = ClientInfoPdu::new("testuser".to_string(), "password123".to_string());

    let mut buffer = Vec::new();
    pdu.encode(&mut buffer).unwrap();

    let mut cursor = BerReader::new(&buffer);
    let decoded = ClientInfoPdu::decode(&mut cursor).unwrap();

    assert_eq!(decoded.user_name, "testuser");
    assert_eq!(decoded.password, "password123");
    assert_eq!(decoded.code_page, 0);
    assert!(decoded.flags.contains(ClientInfoFlags::UNICODE));
}

#[test]
fn test_client_info_pdu_with_domain() {
    let pdu = ClientInfoPdu::new("admin".to_string(), "pass".to_string())
        .with_domain("WORKGROUP".to_string());

    let mut buffer = Vec::new();
    pdu.encode(&mut buffer).unwrap();

    let mut cursor = BerReader::new(&buffer);
    let decoded = ClientInfoPdu::decode(&mut cursor).unwrap();

    assert_eq!(decoded.domain, "WORKGROUP");
    assert_eq!(decoded.user_name, "admin");
}

#[test]
fn test_client_info_pdu_with_extended() {
    let ext = ExtendedInfo {
        client_address_family: 2, // AF_INET
        client_address: "192.168.1.100".to_string(),
        client_dir: "C:\\Users\\Test".to_string(),
        client_time_zone: TimeZoneInformation::utc(),
        client_session_id: 0,
        performance_flags: PerformanceFlags::new(PerformanceFlags::DISABLE_WALLPAPER),
    };

    let pdu = ClientInfoPdu::new("user".to_string(), "pass".to_string())
        .with_extended_info(ext);

    let mut buffer = Vec::new();
    pdu.encode(&mut buffer).unwrap();

    let mut cursor = BerReader::new(&buffer);
    let decoded = ClientInfoPdu::decode(&mut cursor).unwrap();

    assert!(decoded.extended_info.is_some());
    let decoded_ext = decoded.extended_info.unwrap();
    assert_eq!(decoded_ext.client_address, "192.168.1.100");
    assert_eq!(decoded_ext.client_address_family, 2);
}

#[test]
fn test_unicode_string_helpers() {
    let original = "Hello 안녕하세요";
    let mut buffer = Vec::new();
    write_unicode_string(&mut buffer, original).unwrap();

    let byte_count = buffer.len() as u16;
    let mut cursor = BerReader::new(&buffer);
    let decoded = read_unicode_string(&mut cursor, byte_count).unwrap();

    assert_eq!(decoded, original);
}

#[test]
fn test_empty_strings() {
    let pdu = ClientInfoPdu::new(String::new(), String::new());

    let mut buffer = Vec::new();
    pdu.encode(&mut buffer).unwrap();

    let mut cursor = BerReader::new(&buffer);
    let decoded = ClientInfoPdu::decode(&mut cursor).unwrap();

    assert_eq!(decoded.user_name, "");
    assert_eq!(decoded.password, "");
}

