use trading_stack::common::time::Nanos;
use trading_stack::common::types::Side;
use trading_stack::exchange::order_server::{ClientConnection, OrderServer, OrderServerConfig};
use trading_stack::exchange::protocol::{
    ClientRequest, ClientRequestType, ClientResponse, ClientResponseType,
};
use trading_stack::trading::order_gateway::OrderGateway;

fn request(order_id: u64) -> ClientRequest {
    ClientRequest::new(ClientRequestType::New, 7, 1, order_id, 1, 100, 10)
}

#[test]
fn whole_records_are_framed_in_stream_order() {
    let mut connection = ClientConnection::new(4);
    let mut bytes = request(1).as_bytes();
    bytes.extend(request(2).as_bytes());
    let framed = connection.receive(&bytes);
    assert_eq!(framed, vec![request(1), request(2)]);
    assert_eq!(connection.client_id, 4);
    assert!(connection.receive(&[]).is_empty());
}

#[test]
fn a_record_may_arrive_in_pieces() {
    let mut connection = ClientConnection::new(4);
    let bytes = request(9).as_bytes();
    assert!(connection.receive(&bytes[..10]).is_empty());
    assert!(connection.receive(&bytes[10..29]).is_empty());
    assert_eq!(connection.receive(&bytes[29..]), vec![request(9)]);
}

#[test]
fn unknown_kind_costs_one_byte_at_a_time() {
    let mut connection = ClientConnection::new(4);
    // Three bytes that start no request, then a request.
    let mut bytes = vec![0u8, 9, 200];
    bytes.extend(request(5).as_bytes());
    assert_eq!(connection.receive(&bytes), vec![request(5)]);
    // Nothing is left over.
    assert_eq!(connection.receive(&request(6).as_bytes()), vec![request(6)]);
}

#[test]
fn leftover_shorter_than_a_record_waits() {
    let mut connection = ClientConnection::new(4);
    let mut bytes = request(1).as_bytes();
    bytes.extend(&request(2).as_bytes()[..29]);
    assert_eq!(connection.receive(&bytes), vec![request(1)]);
    assert_eq!(connection.receive(&request(2).as_bytes()[29..]), vec![request(2)]);
}

#[test]
fn server_numbers_requests_across_clients() {
    let mut server = OrderServer::new(OrderServerConfig::new("127.0.0.1", 0));
    assert!(server.is_empty());
    assert_eq!(server.current_sequence(), 1);
    let a = server.accept();
    let b = server.accept();
    assert_eq!((a, b), (1, 2));
    assert_eq!(server.client_count(), 2);

    let mut two = request(10).as_bytes();
    two.extend(request(11).as_bytes());
    let first = server.on_data(b, &two);
    let second = server.on_data(a, &request(12).as_bytes());
    assert_eq!(first.len(), 2);
    assert_eq!(
        first.iter().map(|r| (r.sequence_number, r.client_id, r.request.order_id)).collect::<Vec<_>>(),
        vec![(1, 2, 10), (2, 2, 11)]
    );
    assert_eq!(
        second.iter().map(|r| (r.sequence_number, r.client_id, r.request.order_id)).collect::<Vec<_>>(),
        vec![(3, 1, 12)]
    );
    assert_eq!(server.current_sequence(), 4);

    // Bytes of a client that is not connected are dropped.
    assert!(server.on_data(77, &request(13).as_bytes()).is_empty());
    assert_eq!(server.current_sequence(), 4);
}

#[test]
fn server_keeps_each_clients_bytes_apart() {
    let mut server = OrderServer::with_defaults();
    let a = server.accept();
    let b = server.accept();
    let bytes = request(1).as_bytes();
    assert!(server.on_data(a, &bytes[..15]).is_empty());
    assert!(server.on_data(b, &bytes[..15]).is_empty());
    assert_eq!(server.on_data(a, &bytes[15..]).len(), 1);
    assert!(server.get_client(b).is_some());
    assert!(server.disconnect_client(b));
    assert!(!server.disconnect_client(b));
    assert!(server.get_client(b).is_none());
    assert_eq!(server.client_ids(), vec![a]);
    server.disconnect_all();
    assert_eq!(server.client_count(), 0);
    // Client ids are not reused.
    assert_eq!(server.accept(), 3);
}

#[test]
fn gateway_numbers_orders_and_remembers_them() {
    let mut gateway = OrderGateway::new(42);
    assert_eq!(gateway.client_id(), 42);
    assert_eq!(gateway.next_order_id(), 1);
    let (id, request) = gateway.send_new_order(3, Side::Sell, 995, 20, Nanos::new(5));
    assert_eq!(id, 1);
    assert_eq!(request, ClientRequest::new(ClientRequestType::New, 42, 3, 1, -1, 995, 20));
    assert_eq!(gateway.next_order_id(), 2);
    assert_eq!(gateway.pending_count(), 1);
    let pending = gateway.get_pending(1).unwrap();
    assert_eq!(pending.side, Side::Sell);
    assert_eq!(pending.sent_time, Nanos::new(5));

    // A cancel of a pending order carries its side, price and quantity.
    assert_eq!(
        gateway.send_cancel(1, 3),
        ClientRequest::new(ClientRequestType::Cancel, 42, 3, 1, -1, 995, 20)
    );
    // A cancel of an order that the gateway does not know carries zeros.
    assert_eq!(
        gateway.send_cancel(8, 3),
        ClientRequest::new(ClientRequestType::Cancel, 42, 3, 8, 0, 0, 0)
    );
    assert_eq!(gateway.pending_count(), 1);
}

fn response(kind: ClientResponseType, order_id: u64, leaves: u32) -> ClientResponse {
    ClientResponse::new(kind, 42, 3, order_id, 900, 1, 995, 5, leaves)
}

#[test]
fn gateway_frames_one_response_per_poll() {
    let mut gateway = OrderGateway::new(42);
    for _ in 0..3 {
        gateway.send_new_order(3, Side::Buy, 995, 20, Nanos::new(0));
    }
    let mut bytes = response(ClientResponseType::Accepted, 1, 20).as_bytes();
    bytes.extend(response(ClientResponseType::Filled, 1, 15).as_bytes());
    bytes.extend(response(ClientResponseType::Filled, 1, 0).as_bytes());
    assert_eq!(gateway.poll(&bytes[..20]), None);
    assert_eq!(gateway.poll(&bytes[20..]), Some(response(ClientResponseType::Accepted, 1, 20)));
    assert_eq!(gateway.pending_count(), 3);
    assert_eq!(gateway.poll(&[]), Some(response(ClientResponseType::Filled, 1, 15)));
    assert_eq!(gateway.pending_count(), 3);
    assert_eq!(gateway.poll(&[]), Some(response(ClientResponseType::Filled, 1, 0)));
    assert_eq!(gateway.pending_count(), 2);
    assert!(gateway.get_pending(1).is_none());
    assert_eq!(gateway.poll(&[]), None);
}

#[test]
fn gateway_forgets_orders_on_terminal_responses() {
    let mut gateway = OrderGateway::new(42);
    for _ in 0..3 {
        gateway.send_new_order(3, Side::Buy, 995, 20, Nanos::new(0));
    }
    assert!(gateway.poll(&response(ClientResponseType::Canceled, 1, 20).as_bytes()).is_some());
    assert!(gateway.poll(&response(ClientResponseType::CancelRejected, 2, 0).as_bytes()).is_some());
    assert!(gateway.poll(&response(ClientResponseType::InvalidRequest, 3, 0).as_bytes()).is_some());
    assert_eq!(gateway.pending_count(), 0);
}

#[test]
fn gateway_drops_a_record_of_unknown_kind() {
    let mut gateway = OrderGateway::new(42);
    gateway.send_new_order(3, Side::Buy, 995, 20, Nanos::new(0));
    let mut odd = response(ClientResponseType::Canceled, 1, 0).as_bytes();
    odd[0] = 77;
    let mut bytes = odd;
    bytes.extend(response(ClientResponseType::Accepted, 1, 20).as_bytes());
    assert_eq!(gateway.poll(&bytes), None);
    assert_eq!(gateway.pending_count(), 1);
    assert_eq!(gateway.poll(&[]), Some(response(ClientResponseType::Accepted, 1, 20)));
}
