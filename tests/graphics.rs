use pentardp_rs::graphics::{UpdateType, BitmapFlags, PaletteEntry, PaletteUpdate, BitmapData, BitmapUpdate, UpdatePdu};
use pentardp_rs::ber::{BerReader};

#[test]
fn test_bitmap_flags() {
    let flags = BitmapFlags::uncompressed();
    assert!(!flags.is_compressed());
    assert_eq!(flags.as_u16(), 0);

    let flags = BitmapFlags::compressed();
    assert!(flags.is_compressed());
    assert!(!flags.no_compression_header());

    let flags = BitmapFlags::compressed_no_header();
    assert!(flags.is_compressed());
    assert!(flags.no_compression_header());
}

#[test]
fn test_bitmap_data_encode_decode() {
    let pixel_data = vec![0xFF, 0x00, 0x00, 0x00, 0xFF, 0x00, 0x00, 0x00, 0xFF];
    let bitmap = BitmapData::uncompressed(10, 20, 3, 1, 24, pixel_data.clone());

    let mut buffer = Vec::new();
    bitmap.encode(&mut buffer).unwrap();

    let expected_size = BitmapData::HEADER_SIZE + pixel_data.len();
    assert_eq!(buffer.len(), expected_size);

    let mut cursor = BerReader::new(&buffer);
    let decoded = BitmapData::decode(&mut cursor).unwrap();

    assert_eq!(decoded, bitmap);
    assert_eq!(decoded.dest_left, 10);
    assert_eq!(decoded.dest_top, 20);
    assert_eq!(decoded.width, 3);
    assert_eq!(decoded.height, 1);
    assert_eq!(decoded.bits_per_pixel, 24);
    assert_eq!(decoded.bitmap_data, pixel_data);
}

#[test]
fn test_bitmap_data_coordinates() {
    let bitmap = BitmapData::uncompressed(100, 200, 64, 48, 16, vec![0; 64 * 48 * 2]);

    assert_eq!(bitmap.dest_left, 100);
    assert_eq!(bitmap.dest_top, 200);
    assert_eq!(bitmap.dest_right, 100 + 64 - 1);
    assert_eq!(bitmap.dest_bottom, 200 + 48 - 1);
}

#[test]
fn test_bitmap_update_single() {
    let pixel_data = vec![0xAA; 16];
    let bitmap = BitmapData::uncompressed(0, 0, 4, 4, 8, pixel_data);
    let update = BitmapUpdate::single(bitmap);

    let mut buffer = Vec::new();
    update.encode(&mut buffer).unwrap();

    let mut cursor = BerReader::new(&buffer);
    let decoded = BitmapUpdate::decode(&mut cursor).unwrap();

    assert_eq!(decoded.number_rectangles, 1);
    assert_eq!(decoded.rectangles.len(), 1);
    assert_eq!(decoded.rectangles[0].bitmap_data.len(), 16);
}

#[test]
fn test_bitmap_update_multiple() {
    let bitmaps = vec![
        BitmapData::uncompressed(0, 0, 8, 8, 8, vec![0xFF; 64]),
        BitmapData::uncompressed(8, 0, 8, 8, 8, vec![0x00; 64]),
        BitmapData::uncompressed(0, 8, 8, 8, 8, vec![0xAA; 64]),
    ];
    let update = BitmapUpdate::new(bitmaps);

    let mut buffer = Vec::new();
    update.encode(&mut buffer).unwrap();

    let mut cursor = BerReader::new(&buffer);
    let decoded = BitmapUpdate::decode(&mut cursor).unwrap();

    assert_eq!(decoded.number_rectangles, 3);
    assert_eq!(decoded.rectangles.len(), 3);
    assert_eq!(decoded.rectangles[0].bitmap_data[0], 0xFF);
    assert_eq!(decoded.rectangles[1].bitmap_data[0], 0x00);
    assert_eq!(decoded.rectangles[2].bitmap_data[0], 0xAA);
}

#[test]
fn test_bitmap_data_compressed_flag() {
    let bitmap = BitmapData::new(
        0,
        0,
        15,
        15,
        16,
        16,
        8,
        BitmapFlags::compressed(),
        vec![0x12, 0x34, 0x56],
    );

    assert!(bitmap.flags.is_compressed());
    assert_eq!(bitmap.bitmap_length, 3);
}

#[test]
fn test_bitmap_update_size() {
    let bitmaps = vec![
        BitmapData::uncompressed(0, 0, 2, 2, 8, vec![0; 4]),
        BitmapData::uncompressed(2, 2, 2, 2, 8, vec![0; 4]),
    ];
    let update = BitmapUpdate::new(bitmaps);

    let expected_size = BitmapUpdate::MIN_SIZE + 2 * (BitmapData::HEADER_SIZE + 4);
    assert_eq!(update.size(), expected_size);
}

#[test]
fn test_update_type() {
    assert_eq!(UpdateType::Bitmap.as_u16(), 0x0001);
    assert_eq!(UpdateType::from_u16(0x0001), Some(UpdateType::Bitmap));
    assert_eq!(UpdateType::from_u16(0xFFFF), None);
}

#[test]
fn test_update_pdu_synchronize() {
    let pdu = UpdatePdu::Synchronize;

    let mut buffer = Vec::new();
    pdu.encode(&mut buffer).unwrap();

    assert_eq!(buffer.len(), 4); // 2 bytes type + 2 bytes padding

    let mut cursor = BerReader::new(&buffer);
    let decoded = UpdatePdu::decode(&mut cursor).unwrap();

    assert_eq!(decoded, pdu);
}

#[test]
fn test_palette_entry() {
    let entry = PaletteEntry::new(255, 128, 64);

    let mut buffer = Vec::new();
    entry.encode(&mut buffer).unwrap();

    assert_eq!(buffer.len(), PaletteEntry::SIZE);

    let mut cursor = BerReader::new(&buffer);
    let decoded = PaletteEntry::decode(&mut cursor).unwrap();

    assert_eq!(decoded, entry);
    assert_eq!(decoded.red, 255);
    assert_eq!(decoded.green, 128);
    assert_eq!(decoded.blue, 64);
}

#[test]
fn test_palette_update() {
    let entries = vec![
        PaletteEntry::new(255, 0, 0),
        PaletteEntry::new(0, 255, 0),
        PaletteEntry::new(0, 0, 255),
    ];
    let pdu = PaletteUpdate::new(entries);

    let mut buffer = Vec::new();
    pdu.encode(&mut buffer).unwrap();

    let mut cursor = BerReader::new(&buffer);
    let decoded = PaletteUpdate::decode(&mut cursor).unwrap();

    assert_eq!(decoded.entries.len(), 3);
    assert_eq!(decoded.entries[0].red, 255);
    assert_eq!(decoded.entries[1].green, 255);
    assert_eq!(decoded.entries[2].blue, 255);
}

