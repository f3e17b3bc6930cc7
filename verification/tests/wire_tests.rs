use trading_stack::common::types::Side;
use trading_stack::exchange::protocol::{
    ClientRequest, ClientRequestType, ClientResponse, ClientResponseType, MarketUpdate,
    MarketUpdateType,
};

#[test]
fn client_request_bytes_are_little_endian_and_packed() {
    let request = ClientRequest::new(ClientRequestType::New, 100, 1, 12345, 1, 10050, 100);
    let expected: Vec<u8> = vec![
        1, // msg_type
        100, 0, 0, 0, // client_id
        1, 0, 0, 0, // ticker_id
        0x39, 0x30, 0, 0, 0, 0, 0, 0, // order_id
        1, // side
        0x42, 0x27, 0, 0, 0, 0, 0, 0, // price
        100, 0, 0, 0, // qty
    ];
    assert_eq!(request.as_bytes(), expected);
}

#[test]
fn negative_fields_are_twos_complement() {
    let request = ClientRequest::new(ClientRequestType::Cancel, 0, 0, 0, -1, -2, 0);
    let bytes = request.as_bytes();
    assert_eq!(bytes[0], 2);
    assert_eq!(bytes[17], 0xFF);
    assert_eq!(&bytes[18..26], &[0xFE, 0xFF, 0xFF, 0xFF, 0xFF, 0xFF, 0xFF, 0xFF]);
    let back = ClientRequest::from_bytes(&bytes).unwrap();
    assert_eq!(back, request);
}

#[test]
fn client_response_bytes_are_little_endian_and_packed() {
    let response = ClientResponse::new(
        ClientResponseType::Filled,
        0x01020304,
        0x0A0B0C0D,
        0x1122334455667788,
        0x99AABBCCDDEEFF00,
        -1,
        i64::MIN,
        7,
        u32::MAX,
    );
    let expected: Vec<u8> = vec![
        3,
        0x04, 0x03, 0x02, 0x01,
        0x0D, 0x0C, 0x0B, 0x0A,
        0x88, 0x77, 0x66, 0x55, 0x44, 0x33, 0x22, 0x11,
        0x00, 0xFF, 0xEE, 0xDD, 0xCC, 0xBB, 0xAA, 0x99,
        0xFF,
        0, 0, 0, 0, 0, 0, 0, 0x80,
        7, 0, 0, 0,
        0xFF, 0xFF, 0xFF, 0xFF,
    ];
    assert_eq!(response.as_bytes(), expected);
    assert_eq!(ClientResponse::from_bytes(&expected), Some(response));
}

#[test]
fn market_update_bytes_are_little_endian_and_packed() {
    let update = MarketUpdate::new(MarketUpdateType::Trade, 2, 3, -1, 260, 5, 0x0102);
    let expected: Vec<u8> = vec![
        4,
        2, 0, 0, 0,
        3, 0, 0, 0, 0, 0, 0, 0,
        0xFF,
        4, 1, 0, 0, 0, 0, 0, 0,
        5, 0, 0, 0,
        2, 1, 0, 0, 0, 0, 0, 0,
    ];
    assert_eq!(update.as_bytes(), expected);
    assert_eq!(MarketUpdate::from_bytes(&expected), Some(update));
}

#[test]
fn roundtrip_holds_at_the_extremes() {
    let requests = [
        ClientRequest { msg_type: 0, client_id: 0, ticker_id: 0, order_id: 0, side: 0, price: 0, qty: 0 },
        ClientRequest {
            msg_type: 255,
            client_id: u32::MAX,
            ticker_id: u32::MAX,
            order_id: u64::MAX,
            side: i8::MIN,
            price: i64::MAX,
            qty: u32::MAX,
        },
        ClientRequest {
            msg_type: 1,
            client_id: 1,
            ticker_id: 2,
            order_id: 3,
            side: i8::MAX,
            price: i64::MIN,
            qty: 4,
        },
    ];
    for request in requests {
        assert_eq!(ClientRequest::from_bytes(&request.as_bytes()), Some(request));
    }
    let update = MarketUpdate {
        msg_type: 6,
        ticker_id: u32::MAX,
        order_id: u64::MAX,
        side: -1,
        price: -1,
        qty: u32::MAX,
        priority: u64::MAX,
    };
    assert_eq!(MarketUpdate::from_bytes(&update.as_bytes()), Some(update));
}

#[test]
fn decoding_asks_for_the_exact_length() {
    let request = ClientRequest::new(ClientRequestType::New, 1, 2, 3, 1, 4, 5);
    let mut bytes = request.as_bytes();
    assert!(ClientRequest::from_bytes(&bytes[..29]).is_none());
    assert!(ClientRequest::from_bytes(&[]).is_none());
    bytes.push(0);
    assert!(ClientRequest::from_bytes(&bytes).is_none());
    assert!(ClientResponse::from_bytes(&[0u8; 41]).is_none());
    assert!(ClientResponse::from_bytes(&[0u8; 43]).is_none());
    assert!(MarketUpdate::from_bytes(&[0u8; 33]).is_none());
    assert!(MarketUpdate::from_bytes(&[0u8; 35]).is_none());
}

#[test]
fn unknown_kinds_decode_but_name_nothing() {
    let mut bytes = ClientRequest::new(ClientRequestType::New, 1, 2, 3, 1, 4, 5).as_bytes();
    bytes[0] = 9;
    let request = ClientRequest::from_bytes(&bytes).unwrap();
    assert_eq!(request.msg_type, 9);
    assert_eq!(request.request_type(), None);
    assert_eq!(ClientRequestType::from_u8(3), None);
    assert_eq!(ClientResponseType::from_u8(6), None);
    assert_eq!(MarketUpdateType::from_u8(7), None);
    assert_eq!(MarketUpdateType::from_u8(255), None);
}

#[test]
fn kinds_and_sides_have_their_wire_codes() {
    assert_eq!(ClientRequestType::New.as_u8(), 1);
    assert_eq!(ClientRequestType::Cancel.as_u8(), 2);
    assert_eq!(ClientResponseType::Accepted.as_u8(), 1);
    assert_eq!(ClientResponseType::Canceled.as_u8(), 2);
    assert_eq!(ClientResponseType::Filled.as_u8(), 3);
    assert_eq!(ClientResponseType::CancelRejected.as_u8(), 4);
    assert_eq!(ClientResponseType::InvalidRequest.as_u8(), 5);
    assert_eq!(MarketUpdateType::Add.as_u8(), 1);
    assert_eq!(MarketUpdateType::Modify.as_u8(), 2);
    assert_eq!(MarketUpdateType::Cancel.as_u8(), 3);
    assert_eq!(MarketUpdateType::Trade.as_u8(), 4);
    assert_eq!(MarketUpdateType::Snapshot.as_u8(), 5);
    assert_eq!(MarketUpdateType::Clear.as_u8(), 6);
    assert_eq!(Side::Buy.as_i8(), 1);
    assert_eq!(Side::Sell.as_i8(), -1);
    assert_eq!(Side::from_i8(1), Some(Side::Buy));
    assert_eq!(Side::from_i8(-1), Some(Side::Sell));
    assert_eq!(Side::from_i8(0), None);
    assert_eq!(Side::from_i8(2), None);
}
