use pentardp_rs::input::{KeyboardFlags, KeyboardEvent, UnicodeKeyboardFlags, UnicodeKeyboardEvent, MouseFlags, MouseEvent, ExtendedMouseFlags, ExtendedMouseEvent, SyncEvent, InputEventType, InputEventPdu};
use pentardp_rs::ber::{BerReader};

#[test]
fn test_keyboard_flags() {
    let flags = KeyboardFlags::key_down();
    assert_eq!(flags.as_u16(), 0);
    assert!(!flags.is_release());

    let flags = KeyboardFlags::key_up();
    assert!(flags.is_release());
    assert_eq!(flags.as_u16() & KeyboardFlags::RELEASE, KeyboardFlags::RELEASE);

    let flags = KeyboardFlags::extended_key_down();
    assert!(flags.is_extended());
    assert!(!flags.is_release());

    let flags = KeyboardFlags::extended_key_up();
    assert!(flags.is_extended());
    assert!(flags.is_release());
}

#[test]
fn test_keyboard_event_encode_decode() {
    let event = KeyboardEvent::key_down(0x1E); // 'A' scancode

    let mut buffer = Vec::new();
    event.encode(&mut buffer).unwrap();

    assert_eq!(buffer.len(), KeyboardEvent::SIZE);

    let mut cursor = BerReader::new(&buffer);
    let decoded = KeyboardEvent::decode(&mut cursor).unwrap();

    assert_eq!(decoded, event);
    assert_eq!(decoded.key_code, 0x1E);
    assert!(!decoded.flags.is_release());
}

#[test]
fn test_keyboard_event_key_up() {
    let event = KeyboardEvent::key_up(0x2C); // 'Z' scancode

    let mut buffer = Vec::new();
    event.encode(&mut buffer).unwrap();

    let mut cursor = BerReader::new(&buffer);
    let decoded = KeyboardEvent::decode(&mut cursor).unwrap();

    assert_eq!(decoded.key_code, 0x2C);
    assert!(decoded.flags.is_release());
}

#[test]
fn test_keyboard_event_extended() {
    let event = KeyboardEvent::extended_key_down(0x48); // Up arrow

    let mut buffer = Vec::new();
    event.encode(&mut buffer).unwrap();

    let mut cursor = BerReader::new(&buffer);
    let decoded = KeyboardEvent::decode(&mut cursor).unwrap();

    assert_eq!(decoded.key_code, 0x48);
    assert!(decoded.flags.is_extended());
    assert!(!decoded.flags.is_release());
}

#[test]
fn test_unicode_keyboard_flags() {
    let flags = UnicodeKeyboardFlags::key_down();
    assert_eq!(flags.as_u16(), 0);
    assert!(!flags.is_release());

    let flags = UnicodeKeyboardFlags::key_up();
    assert!(flags.is_release());
}

#[test]
fn test_unicode_keyboard_event_encode_decode() {
    let event = UnicodeKeyboardEvent::key_down(0x0041); // 'A' Unicode

    let mut buffer = Vec::new();
    event.encode(&mut buffer).unwrap();

    assert_eq!(buffer.len(), UnicodeKeyboardEvent::SIZE);

    let mut cursor = BerReader::new(&buffer);
    let decoded = UnicodeKeyboardEvent::decode(&mut cursor).unwrap();

    assert_eq!(decoded, event);
    assert_eq!(decoded.unicode_code, 0x0041);
    assert!(!decoded.flags.is_release());
}

#[test]
fn test_unicode_keyboard_event_key_up() {
    let event = UnicodeKeyboardEvent::key_up(0x4E2D); // Chinese character

    let mut buffer = Vec::new();
    event.encode(&mut buffer).unwrap();

    let mut cursor = BerReader::new(&buffer);
    let decoded = UnicodeKeyboardEvent::decode(&mut cursor).unwrap();

    assert_eq!(decoded.unicode_code, 0x4E2D);
    assert!(decoded.flags.is_release());
}

#[test]
fn test_keyboard_event_roundtrip() {
    let event = KeyboardEvent::new(KeyboardFlags::new(0x8100), 0x1C); // Extended + Release, Enter

    let mut buffer = Vec::new();
    event.encode(&mut buffer).unwrap();

    let mut cursor = BerReader::new(&buffer);
    let decoded = KeyboardEvent::decode(&mut cursor).unwrap();

    assert_eq!(event, decoded);
}

#[test]
fn test_mouse_flags() {
    let flags = MouseFlags::move_event();
    assert!(flags.is_move());
    assert!(!flags.is_down());

    let flags = MouseFlags::left_button_down();
    assert!(flags.is_button1());
    assert!(flags.is_down());

    let flags = MouseFlags::right_button_up();
    assert!(flags.is_button2());
    assert!(!flags.is_down());
}

#[test]
fn test_mouse_event_encode_decode() {
    let event = MouseEvent::move_to(100, 200);

    let mut buffer = Vec::new();
    event.encode(&mut buffer).unwrap();

    assert_eq!(buffer.len(), MouseEvent::SIZE);

    let mut cursor = BerReader::new(&buffer);
    let decoded = MouseEvent::decode(&mut cursor).unwrap();

    assert_eq!(decoded, event);
    assert_eq!(decoded.x_pos, 100);
    assert_eq!(decoded.y_pos, 200);
    assert!(decoded.flags.is_move());
}

#[test]
fn test_mouse_event_button_down() {
    let event = MouseEvent::left_down(50, 75);

    let mut buffer = Vec::new();
    event.encode(&mut buffer).unwrap();

    let mut cursor = BerReader::new(&buffer);
    let decoded = MouseEvent::decode(&mut cursor).unwrap();

    assert_eq!(decoded.x_pos, 50);
    assert_eq!(decoded.y_pos, 75);
    assert!(decoded.flags.is_button1());
    assert!(decoded.flags.is_down());
}

#[test]
fn test_mouse_event_button_up() {
    let event = MouseEvent::right_up(120, 240);

    let mut buffer = Vec::new();
    event.encode(&mut buffer).unwrap();

    let mut cursor = BerReader::new(&buffer);
    let decoded = MouseEvent::decode(&mut cursor).unwrap();

    assert!(decoded.flags.is_button2());
    assert!(!decoded.flags.is_down());
}

#[test]
fn test_extended_mouse_flags() {
    let flags = ExtendedMouseFlags::move_event();
    assert!(flags.is_move());

    let flags = ExtendedMouseFlags::button1_down();
    assert!(flags.is_down());
}

#[test]
fn test_extended_mouse_event_encode_decode() {
    let event = ExtendedMouseEvent::move_to(300, 400);

    let mut buffer = Vec::new();
    event.encode(&mut buffer).unwrap();

    assert_eq!(buffer.len(), ExtendedMouseEvent::SIZE);

    let mut cursor = BerReader::new(&buffer);
    let decoded = ExtendedMouseEvent::decode(&mut cursor).unwrap();

    assert_eq!(decoded, event);
    assert_eq!(decoded.x_pos, 300);
    assert_eq!(decoded.y_pos, 400);
    assert!(decoded.flags.is_move());
}

#[test]
fn test_sync_event_encode_decode() {
    let event = SyncEvent::new(SyncEvent::CAPS_LOCK | SyncEvent::NUM_LOCK);

    let mut buffer = Vec::new();
    event.encode(&mut buffer).unwrap();

    assert_eq!(buffer.len(), SyncEvent::SIZE);

    let mut cursor = BerReader::new(&buffer);
    let decoded = SyncEvent::decode(&mut cursor).unwrap();

    assert_eq!(decoded, event);
    assert_eq!(decoded.flags, SyncEvent::CAPS_LOCK | SyncEvent::NUM_LOCK);
}

#[test]
fn test_mouse_wheel() {
    let flags = MouseFlags::vertical_wheel(120);
    assert!(flags.is_wheel());
    assert!(!flags.is_hwheel());

    let flags = MouseFlags::vertical_wheel(-120);
    assert!(flags.is_wheel());
    assert_eq!(flags.0 & MouseFlags::WHEEL_NEGATIVE, MouseFlags::WHEEL_NEGATIVE);

    let flags = MouseFlags::horizontal_wheel(120);
    assert!(flags.is_hwheel());
}

#[test]
fn test_input_event_type() {
    assert_eq!(InputEventType::Scancode.as_u16(), 0x0004);
    assert_eq!(
        InputEventType::from_u16(0x0004),
        Some(InputEventType::Scancode)
    );
    assert_eq!(InputEventType::from_u16(0xFFFF), None);
}

#[test]
fn test_input_event_pdu_empty() {
    let pdu = InputEventPdu::new(vec![]);

    let mut buffer = Vec::new();
    pdu.encode(&mut buffer).unwrap();

    assert_eq!(buffer.len(), InputEventPdu::MIN_SIZE);

    let mut cursor = BerReader::new(&buffer);
    let decoded = InputEventPdu::decode(&mut cursor).unwrap();

    assert_eq!(decoded.num_events, 0);
    assert_eq!(decoded.events.len(), 0);
}

