use pentardp_rs::control::{ControlAction, SynchronizePdu, ControlPdu, FontListPdu, FontMapPdu};
use pentardp_rs::ber::{BerReader};

#[test]
fn test_control_action() {
    assert_eq!(ControlAction::Cooperate.as_u16(), 0x0004);
    assert_eq!(
        ControlAction::from_u16(0x0004),
        Some(ControlAction::Cooperate)
    );
    assert_eq!(ControlAction::from_u16(0xFFFF), None);
}

#[test]
fn test_synchronize_pdu() {
    let pdu = SynchronizePdu::new(1003);

    let mut buffer = Vec::new();
    pdu.encode(&mut buffer).unwrap();

    assert_eq!(buffer.len(), SynchronizePdu::SIZE);

    let mut cursor = BerReader::new(&buffer);
    let decoded = SynchronizePdu::decode(&mut cursor).unwrap();

    assert_eq!(decoded.message_type, SynchronizePdu::SYNCMSGTYPE_SYNC);
    assert_eq!(decoded.target_user, 1003);
}

#[test]
fn test_control_pdu_cooperate() {
    let pdu = ControlPdu::cooperate();

    let mut buffer = Vec::new();
    pdu.encode(&mut buffer).unwrap();

    assert_eq!(buffer.len(), ControlPdu::SIZE);

    let mut cursor = BerReader::new(&buffer);
    let decoded = ControlPdu::decode(&mut cursor).unwrap();

    assert_eq!(decoded.action, ControlAction::Cooperate);
    assert_eq!(decoded.grant_id, 0);
}

#[test]
fn test_control_pdu_request_control() {
    let pdu = ControlPdu::request_control();

    let mut buffer = Vec::new();
    pdu.encode(&mut buffer).unwrap();

    let mut cursor = BerReader::new(&buffer);
    let decoded = ControlPdu::decode(&mut cursor).unwrap();

    assert_eq!(decoded.action, ControlAction::RequestControl);
}

#[test]
fn test_control_pdu_granted_control() {
    let pdu = ControlPdu::granted_control(1234);

    let mut buffer = Vec::new();
    pdu.encode(&mut buffer).unwrap();

    let mut cursor = BerReader::new(&buffer);
    let decoded = ControlPdu::decode(&mut cursor).unwrap();

    assert_eq!(decoded.action, ControlAction::GrantedControl);
    assert_eq!(decoded.grant_id, 1234);
    assert_eq!(decoded.control_id, 1000);
}

#[test]
fn test_font_list_pdu() {
    let pdu = FontListPdu::new();

    let mut buffer = Vec::new();
    pdu.encode(&mut buffer).unwrap();

    assert_eq!(buffer.len(), FontListPdu::SIZE);

    let mut cursor = BerReader::new(&buffer);
    let decoded = FontListPdu::decode(&mut cursor).unwrap();

    assert_eq!(decoded.number_fonts, 0);
    assert_eq!(decoded.list_flags, FontListPdu::FONTLIST_FIRST_AND_LAST);
    assert_eq!(decoded.entry_size, FontListPdu::ENTRY_SIZE);
}

#[test]
fn test_font_map_pdu() {
    let pdu = FontMapPdu::new();

    let mut buffer = Vec::new();
    pdu.encode(&mut buffer).unwrap();

    assert_eq!(buffer.len(), FontMapPdu::SIZE);

    let mut cursor = BerReader::new(&buffer);
    let decoded = FontMapPdu::decode(&mut cursor).unwrap();

    assert_eq!(decoded.number_entries, 0);
    assert_eq!(decoded.map_flags, FontMapPdu::FONTMAP_FIRST_AND_LAST);
    assert_eq!(decoded.entry_size, FontMapPdu::ENTRY_SIZE);
}

#[test]
fn test_synchronize_pdu_roundtrip() {
    let pdu = SynchronizePdu::new(1004);

    let mut buffer = Vec::new();
    pdu.encode(&mut buffer).unwrap();

    let mut cursor = BerReader::new(&buffer);
    let decoded = SynchronizePdu::decode(&mut cursor).unwrap();

    assert_eq!(pdu, decoded);
}

