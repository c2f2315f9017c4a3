use pentardp_rs::orders::{OrderType, DstBltOrder, PatBltOrder, ScrBltOrder, MemBltOrder, OpaqueRectOrder, DrawingOrder, OrdersUpdate};
use pentardp_rs::ber::{BerReader};

#[test]
fn test_order_type() {
    assert_eq!(OrderType::DstBlt.as_u8(), 0x00);
    assert_eq!(OrderType::from_u8(0x00), Some(OrderType::DstBlt));
    assert_eq!(OrderType::from_u8(0xFF), None);
}

#[test]
fn test_dstblt_order_encode_decode() {
    let order = DstBltOrder::new(10, 20, 100, 50, 0xCC);

    let mut buffer = Vec::new();
    order.encode(&mut buffer).unwrap();

    assert_eq!(buffer.len(), DstBltOrder::SIZE);

    let mut cursor = BerReader::new(&buffer);
    let decoded = DstBltOrder::decode(&mut cursor).unwrap();

    assert_eq!(decoded, order);
    assert_eq!(decoded.n_left_rect, 10);
    assert_eq!(decoded.n_top_rect, 20);
    assert_eq!(decoded.n_width, 100);
    assert_eq!(decoded.n_height, 50);
    assert_eq!(decoded.b_rop, 0xCC);
}

#[test]
fn test_patblt_order_encode_decode() {
    let order = PatBltOrder::new(5, 5, 50, 50, 0xF0, 0xFF0000, 0x00FF00);

    let mut buffer = Vec::new();
    order.encode(&mut buffer).unwrap();

    let mut cursor = BerReader::new(&buffer);
    let decoded = PatBltOrder::decode(&mut cursor).unwrap();

    assert_eq!(decoded, order);
    assert_eq!(decoded.back_color, 0xFF0000);
    assert_eq!(decoded.fore_color, 0x00FF00);
}

#[test]
fn test_scrblt_order_encode_decode() {
    let order = ScrBltOrder::new(100, 100, 64, 64, 0xCC, 50, 50);

    let mut buffer = Vec::new();
    order.encode(&mut buffer).unwrap();

    let mut cursor = BerReader::new(&buffer);
    let decoded = ScrBltOrder::decode(&mut cursor).unwrap();

    assert_eq!(decoded, order);
    assert_eq!(decoded.n_x_src, 50);
    assert_eq!(decoded.n_y_src, 50);
}

#[test]
fn test_memblt_order_encode_decode() {
    let order = MemBltOrder::new(0, 10, 10, 32, 32, 0xCC, 0, 0, 5);

    let mut buffer = Vec::new();
    order.encode(&mut buffer).unwrap();

    let mut cursor = BerReader::new(&buffer);
    let decoded = MemBltOrder::decode(&mut cursor).unwrap();

    assert_eq!(decoded, order);
    assert_eq!(decoded.cache_id, 0);
    assert_eq!(decoded.cache_index, 5);
}

#[test]
fn test_opaque_rect_order_encode_decode() {
    let order = OpaqueRectOrder::new(0, 0, 800, 600, 0x0000FF);

    let mut buffer = Vec::new();
    order.encode(&mut buffer).unwrap();

    let mut cursor = BerReader::new(&buffer);
    let decoded = OpaqueRectOrder::decode(&mut cursor).unwrap();

    assert_eq!(decoded, order);
    assert_eq!(decoded.color, 0x0000FF);
}

#[test]
fn test_drawing_order_encode_decode() {
    let order = DrawingOrder::DstBlt(DstBltOrder::new(5, 5, 10, 10, 0xCC));

    let mut buffer = Vec::new();
    order.encode(&mut buffer).unwrap();

    let mut cursor = BerReader::new(&buffer);
    let decoded = DrawingOrder::decode(&mut cursor).unwrap();

    assert_eq!(decoded, order);
}

#[test]
fn test_orders_update_single() {
    let order = DrawingOrder::OpaqueRect(OpaqueRectOrder::new(0, 0, 100, 100, 0xFF0000));
    let update = OrdersUpdate::single(order);

    let mut buffer = Vec::new();
    update.encode(&mut buffer).unwrap();

    let mut cursor = BerReader::new(&buffer);
    let decoded = OrdersUpdate::decode(&mut cursor).unwrap();

    assert_eq!(decoded.number_orders, 1);
    assert_eq!(decoded.orders.len(), 1);
}

#[test]
fn test_orders_update_multiple() {
    let orders = vec![
        DrawingOrder::DstBlt(DstBltOrder::new(0, 0, 10, 10, 0xCC)),
        DrawingOrder::PatBlt(PatBltOrder::new(10, 10, 20, 20, 0xF0, 0, 0xFFFFFF)),
        DrawingOrder::ScrBlt(ScrBltOrder::new(30, 30, 15, 15, 0xCC, 0, 0)),
    ];
    let update = OrdersUpdate::new(orders);

    let mut buffer = Vec::new();
    update.encode(&mut buffer).unwrap();

    let mut cursor = BerReader::new(&buffer);
    let decoded = OrdersUpdate::decode(&mut cursor).unwrap();

    assert_eq!(decoded.number_orders, 3);
    assert_eq!(decoded.orders.len(), 3);
}

