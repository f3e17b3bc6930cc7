use trading_stack::exchange::protocol::{
    ClientRequest, ClientRequestType, ClientResponse, ClientResponseType, MarketUpdate,
    MarketUpdateType, CLIENT_REQUEST_SIZE, CLIENT_RESPONSE_SIZE, MARKET_UPDATE_SIZE,
};

#[test]
fn test_client_request_size() {
    // 1 + 4 + 4 + 8 + 1 + 8 + 4 = 30 bytes
    assert_eq!(CLIENT_REQUEST_SIZE, 30);
}

#[test]
fn test_client_response_size() {
    // 1 + 4 + 4 + 8 + 8 + 1 + 8 + 4 + 4 = 42 bytes
    assert_eq!(CLIENT_RESPONSE_SIZE, 42);
}

#[test]
fn test_market_update_size() {
    // 1 + 4 + 8 + 1 + 8 + 4 + 8 = 34 bytes
    assert_eq!(MARKET_UPDATE_SIZE, 34);
}

#[test]
fn test_client_request_roundtrip() {
    let request = ClientRequest::new(
        ClientRequestType::New,
        100,  // client_id
        1,    // ticker_id
        12345, // order_id
        1,    // side (Buy)
        10050, // price
        100,  // qty
    );

    let bytes = request.as_bytes();
    assert_eq!(bytes.len(), CLIENT_REQUEST_SIZE);

    let parsed = ClientRequest::from_bytes(&bytes).unwrap();
    // Copy fields to local variables to avoid unaligned references
    let msg_type = parsed.msg_type;
    let client_id = parsed.client_id;
    let ticker_id = parsed.ticker_id;
    let order_id = parsed.order_id;
    let side = parsed.side;
    let price = parsed.price;
    let qty = parsed.qty;

    assert_eq!(msg_type, ClientRequestType::New.as_u8());
    assert_eq!(client_id, 100);
    assert_eq!(ticker_id, 1);
    assert_eq!(order_id, 12345);
    assert_eq!(side, 1);
    assert_eq!(price, 10050);
    assert_eq!(qty, 100);
}

#[test]
fn test_client_response_roundtrip() {
    let response = ClientResponse::new(
        ClientResponseType::Accepted,
        100,   // client_id
        1,     // ticker_id
        12345, // client_order_id
        67890, // market_order_id
        1,     // side
        10050, // price
        0,     // exec_qty
        100,   // leaves_qty
    );

    let bytes = response.as_bytes();
    assert_eq!(bytes.len(), CLIENT_RESPONSE_SIZE);

    let parsed = ClientResponse::from_bytes(&bytes).unwrap();
    // Copy fields to local variables to avoid unaligned references
    let msg_type = parsed.msg_type;
    let client_id = parsed.client_id;
    let ticker_id = parsed.ticker_id;
    let client_order_id = parsed.client_order_id;
    let market_order_id = parsed.market_order_id;
    let side = parsed.side;
    let price = parsed.price;
    let exec_qty = parsed.exec_qty;
    let leaves_qty = parsed.leaves_qty;

    assert_eq!(msg_type, ClientResponseType::Accepted.as_u8());
    assert_eq!(client_id, 100);
    assert_eq!(ticker_id, 1);
    assert_eq!(client_order_id, 12345);
    assert_eq!(market_order_id, 67890);
    assert_eq!(side, 1);
    assert_eq!(price, 10050);
    assert_eq!(exec_qty, 0);
    assert_eq!(leaves_qty, 100);
}

#[test]
fn test_market_update_roundtrip() {
    let update = MarketUpdate::new(
        MarketUpdateType::Add,
        1,     // ticker_id
        12345, // order_id
        1,     // side
        10050, // price
        100,   // qty
        99999, // priority
    );

    let bytes = update.as_bytes();
    assert_eq!(bytes.len(), MARKET_UPDATE_SIZE);

    let parsed = MarketUpdate::from_bytes(&bytes).unwrap();
    // Copy fields to local variables to avoid unaligned references
    let msg_type = parsed.msg_type;
    let ticker_id = parsed.ticker_id;
    let order_id = parsed.order_id;
    let side = parsed.side;
    let price = parsed.price;
    let qty = parsed.qty;
    let priority = parsed.priority;

    assert_eq!(msg_type, MarketUpdateType::Add.as_u8());
    assert_eq!(ticker_id, 1);
    assert_eq!(order_id, 12345);
    assert_eq!(side, 1);
    assert_eq!(price, 10050);
    assert_eq!(qty, 100);
    assert_eq!(priority, 99999);
}

#[test]
fn test_request_type_conversion() {
    assert_eq!(ClientRequestType::from_u8(1), Some(ClientRequestType::New));
    assert_eq!(ClientRequestType::from_u8(2), Some(ClientRequestType::Cancel));
    assert_eq!(ClientRequestType::from_u8(0), None);
    assert_eq!(ClientRequestType::from_u8(255), None);
}

#[test]
fn test_response_type_conversion() {
    assert_eq!(ClientResponseType::from_u8(1), Some(ClientResponseType::Accepted));
    assert_eq!(ClientResponseType::from_u8(2), Some(ClientResponseType::Canceled));
    assert_eq!(ClientResponseType::from_u8(3), Some(ClientResponseType::Filled));
    assert_eq!(ClientResponseType::from_u8(4), Some(ClientResponseType::CancelRejected));
    assert_eq!(ClientResponseType::from_u8(5), Some(ClientResponseType::InvalidRequest));
    assert_eq!(ClientResponseType::from_u8(0), None);
}

#[test]
fn test_market_update_type_conversion() {
    assert_eq!(MarketUpdateType::from_u8(1), Some(MarketUpdateType::Add));
    assert_eq!(MarketUpdateType::from_u8(2), Some(MarketUpdateType::Modify));
    assert_eq!(MarketUpdateType::from_u8(3), Some(MarketUpdateType::Cancel));
    assert_eq!(MarketUpdateType::from_u8(4), Some(MarketUpdateType::Trade));
    assert_eq!(MarketUpdateType::from_u8(5), Some(MarketUpdateType::Snapshot));
    assert_eq!(MarketUpdateType::from_u8(6), Some(MarketUpdateType::Clear));
    assert_eq!(MarketUpdateType::from_u8(0), None);
}

#[test]
fn test_from_bytes_with_wrong_size() {
    let too_small: [u8; 10] = [0; 10];
    assert!(ClientRequest::from_bytes(&too_small).is_none());
    assert!(ClientResponse::from_bytes(&too_small).is_none());
    assert!(MarketUpdate::from_bytes(&too_small).is_none());
}
