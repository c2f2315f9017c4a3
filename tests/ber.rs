use pentardp_rs::ber::{BerTag, BerReader, BerWriter};

#[test]
fn test_ber_length_short_form() {
    let mut writer = BerWriter::new();
    writer.write_length(127);
    assert_eq!(writer.as_bytes(), &[127]);

    let mut reader = BerReader::new(writer.as_bytes());
    assert_eq!(reader.read_length().unwrap(), 127);
}

#[test]
fn test_ber_length_long_form() {
    let mut writer = BerWriter::new();
    writer.write_length(256);
    assert_eq!(writer.as_bytes(), &[0x82, 0x01, 0x00]);

    let mut reader = BerReader::new(writer.as_bytes());
    assert_eq!(reader.read_length().unwrap(), 256);
}

#[test]
fn test_ber_integer() {
    let test_cases = vec![0, 1, 127, 128, 255, 256, 65535, 0xFFFFFF];

    for value in test_cases {
        let mut writer = BerWriter::new();
        writer.write_integer(value);

        let mut reader = BerReader::new(writer.as_bytes());
        assert_eq!(reader.read_integer().unwrap(), value);
    }
}

#[test]
fn test_ber_octet_string() {
    let test_data = vec![0x01, 0x02, 0x03, 0xFF];

    let mut writer = BerWriter::new();
    writer.write_octet_string(&test_data);

    let mut reader = BerReader::new(writer.as_bytes());
    assert_eq!(reader.read_octet_string().unwrap(), test_data);
}

#[test]
fn test_ber_enumerated() {
    let mut writer = BerWriter::new();
    writer.write_enumerated(5);

    let mut reader = BerReader::new(writer.as_bytes());
    assert_eq!(reader.read_enumerated().unwrap(), 5);
}

#[test]
fn test_ber_sequence() {
    let mut writer = BerWriter::new();
    let mut w = BerWriter::new();
    w.write_integer(42);
    w.write_integer(100);
    writer.write_sequence(w.as_bytes());

    let mut reader = BerReader::new(writer.as_bytes());
    let tag = reader.read_tag().unwrap();
    assert_eq!(tag, BerTag::Sequence.as_u8());

    let length = reader.read_length().unwrap();
    assert!(length > 0);

    assert_eq!(reader.read_integer().unwrap(), 42);
    assert_eq!(reader.read_integer().unwrap(), 100);
}

#[test]
fn test_ber_application_tag() {
    let mut writer = BerWriter::new();
    let mut w = BerWriter::new();
    w.write_integer(123);
    writer.write_application_tag(5, w.as_bytes());

    let mut reader = BerReader::new(writer.as_bytes());
    let length = reader.read_application_tag(5).unwrap();
    assert!(length > 0);

    assert_eq!(reader.read_integer().unwrap(), 123);
}

#[test]
fn test_ber_context_tag() {
    let mut writer = BerWriter::new();
    let mut w = BerWriter::new();
    w.write_integer(456);
    writer.write_context_tag(3, w.as_bytes());

    let mut reader = BerReader::new(writer.as_bytes());
    let length = reader.read_context_tag(3).unwrap();
    assert!(length > 0);

    assert_eq!(reader.read_integer().unwrap(), 456);
}

#[test]
fn test_ber_roundtrip_complex() {
    let mut writer = BerWriter::new();
    let mut w2 = BerWriter::new();
    w2.write_integer(99);
    let mut w = BerWriter::new();
    w.write_integer(1);
    w.write_octet_string(b"test");
    w.write_enumerated(2);
    w.write_sequence(w2.as_bytes());
    writer.write_sequence(w.as_bytes());

    let mut reader = BerReader::new(writer.as_bytes());
    reader.read_tag().unwrap(); // SEQUENCE tag
    reader.read_length().unwrap();

    assert_eq!(reader.read_integer().unwrap(), 1);
    assert_eq!(reader.read_octet_string().unwrap(), b"test");
    assert_eq!(reader.read_enumerated().unwrap(), 2);

    reader.read_tag().unwrap(); // nested SEQUENCE
    reader.read_length().unwrap();
    assert_eq!(reader.read_integer().unwrap(), 99);
}

