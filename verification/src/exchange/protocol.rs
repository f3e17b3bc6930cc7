//! The binary wire protocol between clients and the exchange.
//!
//! Three fixed-size records, laid out field after field without padding, every
//! multi-byte field little-endian, signed fields in two's complement:
//!
//! * [`ClientRequest`], 30 bytes, client to exchange;
//! * [`ClientResponse`], 42 bytes, exchange to client;
//! * [`MarketUpdate`], 34 bytes, exchange to market-data subscribers.
//!
//! Decoding checks the length and nothing else: a record whose `msg_type`
//! byte names no message kind still decodes, and its typed accessor returns
//! `None`.

use vstd::prelude::*;
use vstd::bytes::*;
use vstd::slice::slice_subrange;

verus! {

/// Size of an encoded [`ClientRequest`] in bytes.
pub const CLIENT_REQUEST_SIZE: usize = 30;

/// Size of an encoded [`ClientResponse`] in bytes.
pub const CLIENT_RESPONSE_SIZE: usize = 42;

/// Size of an encoded [`MarketUpdate`] in bytes.
pub const MARKET_UPDATE_SIZE: usize = 34;

/// What a client asks of the exchange.
#[derive(Debug, Clone, Copy, PartialEq, Eq, Structural)]
pub enum ClientRequestType {
    New,
    Cancel,
}

impl ClientRequestType {
    /// The wire code of this kind: `New` is 1, `Cancel` is 2.
    pub open spec fn code(self) -> u8 {
        match self {
            ClientRequestType::New => 1,
            ClientRequestType::Cancel => 2,
        }
    }

    /// The kind that a wire code names, if any.
    pub open spec fn of_code(value: u8) -> Option<ClientRequestType> {
        if value == 1 {
            Some(ClientRequestType::New)
        } else if value == 2 {
            Some(ClientRequestType::Cancel)
        } else {
            None
        }
    }

    /// Converts a raw `msg_type` byte; `None` for an unknown code.
    pub fn from_u8(value: u8) -> (r: Option<ClientRequestType>)
        ensures
            r == ClientRequestType::of_code(value),
    {
        match value {
            1 => Some(ClientRequestType::New),
            2 => Some(ClientRequestType::Cancel),
            _ => None,
        }
    }

    /// Returns the wire code of this kind.
    pub fn as_u8(&self) -> (r: u8)
        ensures
            r == self.code(),
            ClientRequestType::of_code(r) == Some(*self),
    {
        match self {
            ClientRequestType::New => 1,
            ClientRequestType::Cancel => 2,
        }
    }
}

/// How the exchange answers a request.
#[derive(Debug, Clone, Copy, PartialEq, Eq, Structural)]
pub enum ClientResponseType {
    Accepted,
    Canceled,
    Filled,
    CancelRejected,
    InvalidRequest,
}

impl ClientResponseType {
    /// The wire code of this kind, 1 to 5 in declaration order.
    pub open spec fn code(self) -> u8 {
        match self {
            ClientResponseType::Accepted => 1,
            ClientResponseType::Canceled => 2,
            ClientResponseType::Filled => 3,
            ClientResponseType::CancelRejected => 4,
            ClientResponseType::InvalidRequest => 5,
        }
    }

    /// The kind that a wire code names, if any.
    pub open spec fn of_code(value: u8) -> Option<ClientResponseType> {
        if value == 1 {
            Some(ClientResponseType::Accepted)
        } else if value == 2 {
            Some(ClientResponseType::Canceled)
        } else if value == 3 {
            Some(ClientResponseType::Filled)
        } else if value == 4 {
            Some(ClientResponseType::CancelRejected)
        } else if value == 5 {
            Some(ClientResponseType::InvalidRequest)
        } else {
            None
        }
    }

    /// Converts a raw `msg_type` byte; `None` for an unknown code.
    pub fn from_u8(value: u8) -> (r: Option<ClientResponseType>)
        ensures
            r == ClientResponseType::of_code(value),
    {
        match value {
            1 => Some(ClientResponseType::Accepted),
            2 => Some(ClientResponseType::Canceled),
            3 => Some(ClientResponseType::Filled),
            4 => Some(ClientResponseType::CancelRejected),
            5 => Some(ClientResponseType::InvalidRequest),
            _ => None,
        }
    }

    /// Returns the wire code of this kind.
    pub fn as_u8(&self) -> (r: u8)
        ensures
            r == self.code(),
            ClientResponseType::of_code(r) == Some(*self),
    {
        match self {
            ClientResponseType::Accepted => 1,
            ClientResponseType::Canceled => 2,
            ClientResponseType::Filled => 3,
            ClientResponseType::CancelRejected => 4,
            ClientResponseType::InvalidRequest => 5,
        }
    }
}

/// What a market-data delta reports.
#[derive(Debug, Clone, Copy, PartialEq, Eq, Structural)]
pub enum MarketUpdateType {
    Add,
    Modify,
    Cancel,
    Trade,
    Snapshot,
    Clear,
}

impl MarketUpdateType {
    /// The wire code of this kind, 1 to 6 in declaration order.
    pub open spec fn code(self) -> u8 {
        match self {
            MarketUpdateType::Add => 1,
            MarketUpdateType::Modify => 2,
            MarketUpdateType::Cancel => 3,
            MarketUpdateType::Trade => 4,
            MarketUpdateType::Snapshot => 5,
            MarketUpdateType::Clear => 6,
        }
    }

    /// The kind that a wire code names, if any.
    pub open spec fn of_code(value: u8) -> Option<MarketUpdateType> {
        if value == 1 {
            Some(MarketUpdateType::Add)
        } else if value == 2 {
            Some(MarketUpdateType::Modify)
        } else if value == 3 {
            Some(MarketUpdateType::Cancel)
        } else if value == 4 {
            Some(MarketUpdateType::Trade)
        } else if value == 5 {
            Some(MarketUpdateType::Snapshot)
        } else if value == 6 {
            Some(MarketUpdateType::Clear)
        } else {
            None
        }
    }

    /// Converts a raw `msg_type` byte; `None` for an unknown code.
    pub fn from_u8(value: u8) -> (r: Option<MarketUpdateType>)
        ensures
            r == MarketUpdateType::of_code(value),
    {
        match value {
            1 => Some(MarketUpdateType::Add),
            2 => Some(MarketUpdateType::Modify),
            3 => Some(MarketUpdateType::Cancel),
            4 => Some(MarketUpdateType::Trade),
            5 => Some(MarketUpdateType::Snapshot),
            6 => Some(MarketUpdateType::Clear),
            _ => None,
        }
    }

    /// Returns the wire code of this kind.
    pub fn as_u8(&self) -> (r: u8)
        ensures
            r == self.code(),
            MarketUpdateType::of_code(r) == Some(*self),
    {
        match self {
            MarketUpdateType::Add => 1,
            MarketUpdateType::Modify => 2,
            MarketUpdateType::Cancel => 3,
            MarketUpdateType::Trade => 4,
            MarketUpdateType::Snapshot => 5,
            MarketUpdateType::Clear => 6,
        }
    }
}

/// The eight little-endian bytes of a signed 64-bit value in two's
/// complement.
pub open spec fn spec_i64_to_le_bytes(x: i64) -> Seq<u8> {
    spec_u64_to_le_bytes(x as u64)
}

/// The signed 64-bit value that eight little-endian bytes stand for.
pub open spec fn spec_i64_from_le_bytes(s: Seq<u8>) -> i64 {
    spec_u64_from_le_bytes(s) as i64
}

/// The byte of a signed 8-bit value in two's complement.
pub open spec fn spec_i8_to_byte(x: i8) -> u8 {
    x as u8
}

/// The signed 8-bit value that a byte stands for.
pub open spec fn spec_i8_from_byte(b: u8) -> i8 {
    b as i8
}

proof fn lemma_signed_roundtrip(x: i64, y: i8)
    ensures
        spec_i64_from_le_bytes(spec_i64_to_le_bytes(x)) == x,
        spec_i64_to_le_bytes(x).len() == 8,
        spec_i8_from_byte(spec_i8_to_byte(y)) == y,
{
    lemma_auto_spec_u64_to_from_le_bytes();
    assert((x as u64) as i64 == x) by (bit_vector);
    assert((y as u8) as i8 == y) by (bit_vector);
}

fn put_u32(out: &mut Vec<u8>, x: u32)
    ensures
        final(out)@ == old(out)@ + spec_u32_to_le_bytes(x),
{
    let mut piece = u32_to_le_bytes(x);
    out.append(&mut piece);
}

fn put_u64(out: &mut Vec<u8>, x: u64)
    ensures
        final(out)@ == old(out)@ + spec_u64_to_le_bytes(x),
{
    let mut piece = u64_to_le_bytes(x);
    out.append(&mut piece);
}

fn put_i64(out: &mut Vec<u8>, x: i64)
    ensures
        final(out)@ == old(out)@ + spec_i64_to_le_bytes(x),
{
    put_u64(out, #[verifier::truncate] (x as u64));
}

fn put_u8(out: &mut Vec<u8>, x: u8)
    ensures
        final(out)@ == old(out)@ + seq![x],
{
    out.push(x);
    assert(out@ =~= old(out)@ + seq![x]);
}

fn put_i8(out: &mut Vec<u8>, x: i8)
    ensures
        final(out)@ == old(out)@ + seq![spec_i8_to_byte(x)],
{
    put_u8(out, #[verifier::truncate] (x as u8));
}

fn take_u32(bytes: &[u8], at: usize) -> (r: u32)
    requires
        at + 4 <= bytes.len(),
    ensures
        r == spec_u32_from_le_bytes(bytes@.subrange(at as int, at + 4)),
{
    u32_from_le_bytes(slice_subrange(bytes, at, at + 4))
}

fn take_u64(bytes: &[u8], at: usize) -> (r: u64)
    requires
        at + 8 <= bytes.len(),
    ensures
        r == spec_u64_from_le_bytes(bytes@.subrange(at as int, at + 8)),
{
    u64_from_le_bytes(slice_subrange(bytes, at, at + 8))
}

fn take_i64(bytes: &[u8], at: usize) -> (r: i64)
    requires
        at + 8 <= bytes.len(),
    ensures
        r == spec_i64_from_le_bytes(bytes@.subrange(at as int, at + 8)),
{
    #[verifier::truncate]
    (take_u64(bytes, at) as i64)
}

fn take_i8(bytes: &[u8], at: usize) -> (r: i8)
    requires
        at < bytes.len(),
    ensures
        r == spec_i8_from_byte(bytes@[at as int]),
{
    #[verifier::truncate]
    (bytes[at] as i8)
}

/// An order request from a client: a new order or a cancel.
#[derive(Debug, Clone, Copy, PartialEq, Eq, Structural)]
pub struct ClientRequest {
    pub msg_type: u8,
    pub client_id: u32,
    pub ticker_id: u32,
    pub order_id: u64,
    pub side: i8,
    pub price: i64,
    pub qty: u32,
}

impl ClientRequest {
    /// The 30 bytes of this record on the wire.
    pub open spec fn encode(self) -> Seq<u8> {
        seq![self.msg_type] + spec_u32_to_le_bytes(self.client_id) + spec_u32_to_le_bytes(
            self.ticker_id,
        ) + spec_u64_to_le_bytes(self.order_id) + seq![spec_i8_to_byte(self.side)]
            + spec_i64_to_le_bytes(self.price) + spec_u32_to_le_bytes(self.qty)
    }

    /// The record that `bytes` holds: defined exactly for 30 bytes.
    pub open spec fn decode(bytes: Seq<u8>) -> Option<ClientRequest> {
        if bytes.len() == CLIENT_REQUEST_SIZE {
            Some(
                ClientRequest {
                    msg_type: bytes[0],
                    client_id: spec_u32_from_le_bytes(bytes.subrange(1, 5)),
                    ticker_id: spec_u32_from_le_bytes(bytes.subrange(5, 9)),
                    order_id: spec_u64_from_le_bytes(bytes.subrange(9, 17)),
                    side: spec_i8_from_byte(bytes[17]),
                    price: spec_i64_from_le_bytes(bytes.subrange(18, 26)),
                    qty: spec_u32_from_le_bytes(bytes.subrange(26, 30)),
                },
            )
        } else {
            None
        }
    }

    /// The kind of this request, if its `msg_type` names one.
    pub open spec fn kind(self) -> Option<ClientRequestType> {
        ClientRequestType::of_code(self.msg_type)
    }

    /// Creates a request of the given kind.
    pub fn new(
        msg_type: ClientRequestType,
        client_id: u32,
        ticker_id: u32,
        order_id: u64,
        side: i8,
        price: i64,
        qty: u32,
    ) -> (r: ClientRequest)
        ensures
            r == (ClientRequest {
                msg_type: msg_type.code(),
                client_id,
                ticker_id,
                order_id,
                side,
                price,
                qty,
            }),
            r.kind() == Some(msg_type),
    {
        ClientRequest { msg_type: msg_type.as_u8(), client_id, ticker_id, order_id, side, price, qty }
    }

    /// Returns the kind of this request; `None` if `msg_type` is unknown.
    pub fn request_type(&self) -> (r: Option<ClientRequestType>)
        ensures
            r == self.kind(),
    {
        ClientRequestType::from_u8(self.msg_type)
    }

    /// Encodes this record.
    pub fn as_bytes(&self) -> (bytes: Vec<u8>)
        ensures
            bytes@ == self.encode(),
            bytes@.len() == CLIENT_REQUEST_SIZE,
    {
        let mut out: Vec<u8> = Vec::new();
        put_u8(&mut out, self.msg_type);
        put_u32(&mut out, self.client_id);
        put_u32(&mut out, self.ticker_id);
        put_u64(&mut out, self.order_id);
        put_i8(&mut out, self.side);
        put_i64(&mut out, self.price);
        put_u32(&mut out, self.qty);
        proof {
            lemma_auto_spec_u32_to_from_le_bytes();
            lemma_auto_spec_u64_to_from_le_bytes();
            assert(out@ =~= self.encode());
        }
        out
    }

    /// Decodes a record. Succeeds exactly when `bytes` is 30 bytes long.
    pub fn from_bytes(bytes: &[u8]) -> (r: Option<ClientRequest>)
        ensures
            r == ClientRequest::decode(bytes@),
            r is Some <==> bytes@.len() == CLIENT_REQUEST_SIZE,
    {
        if bytes.len() != CLIENT_REQUEST_SIZE {
            return None;
        }
        Some(
            ClientRequest {
                msg_type: bytes[0],
                client_id: take_u32(bytes, 1),
                ticker_id: take_u32(bytes, 5),
                order_id: take_u64(bytes, 9),
                side: take_i8(bytes, 17),
                price: take_i64(bytes, 18),
                qty: take_u32(bytes, 26),
            },
        )
    }

    /// Decoding what encoding produced gives the record back, and every
    /// encoding is 30 bytes long.
    pub proof fn lemma_roundtrip(self)
        ensures
            self.encode().len() == CLIENT_REQUEST_SIZE,
            ClientRequest::decode(self.encode()) == Some(self),
    {
        lemma_auto_spec_u32_to_from_le_bytes();
        lemma_auto_spec_u64_to_from_le_bytes();
        lemma_signed_roundtrip(self.price, self.side);
        let e = self.encode();
        assert(e.len() == 30);
        assert(e.subrange(1, 5) =~= spec_u32_to_le_bytes(self.client_id));
        assert(e.subrange(5, 9) =~= spec_u32_to_le_bytes(self.ticker_id));
        assert(e.subrange(9, 17) =~= spec_u64_to_le_bytes(self.order_id));
        assert(e.subrange(18, 26) =~= spec_i64_to_le_bytes(self.price));
        assert(e.subrange(26, 30) =~= spec_u32_to_le_bytes(self.qty));
        assert(e[0] == self.msg_type);
        assert(e[17] == spec_i8_to_byte(self.side));
    }

    /// Encoding what decoding produced gives the bytes back.
    pub proof fn lemma_decode_encode(bytes: Seq<u8>)
        requires
            bytes.len() == CLIENT_REQUEST_SIZE,
        ensures
            ClientRequest::decode(bytes) matches Some(r) && r.encode() == bytes,
    {
        lemma_auto_spec_u32_to_from_le_bytes();
        lemma_auto_spec_u64_to_from_le_bytes();
        let r = ClientRequest::decode(bytes)->0;
        let b17 = bytes[17];
        assert((b17 as i8) as u8 == b17) by (bit_vector);
        let p = spec_u64_from_le_bytes(bytes.subrange(18, 26));
        assert((p as i64) as u64 == p) by (bit_vector);
        assert(r.encode() =~= bytes);
    }
}

/// The exchange's answer to one request.
#[derive(Debug, Clone, Copy, PartialEq, Eq, Structural)]
pub struct ClientResponse {
    pub msg_type: u8,
    pub client_id: u32,
    pub ticker_id: u32,
    pub client_order_id: u64,
    pub market_order_id: u64,
    pub side: i8,
    pub price: i64,
    pub exec_qty: u32,
    pub leaves_qty: u32,
}

impl ClientResponse {
    /// The 42 bytes of this record on the wire.
    pub open spec fn encode(self) -> Seq<u8> {
        seq![self.msg_type] + spec_u32_to_le_bytes(self.client_id) + spec_u32_to_le_bytes(
            self.ticker_id,
        ) + spec_u64_to_le_bytes(self.client_order_id) + spec_u64_to_le_bytes(
            self.market_order_id,
        ) + seq![spec_i8_to_byte(self.side)] + spec_i64_to_le_bytes(self.price)
            + spec_u32_to_le_bytes(self.exec_qty) + spec_u32_to_le_bytes(self.leaves_qty)
    }

    /// The record that `bytes` holds: defined exactly for 42 bytes.
    pub open spec fn decode(bytes: Seq<u8>) -> Option<ClientResponse> {
        if bytes.len() == CLIENT_RESPONSE_SIZE {
            Some(
                ClientResponse {
                    msg_type: bytes[0],
                    client_id: spec_u32_from_le_bytes(bytes.subrange(1, 5)),
                    ticker_id: spec_u32_from_le_bytes(bytes.subrange(5, 9)),
                    client_order_id: spec_u64_from_le_bytes(bytes.subrange(9, 17)),
                    market_order_id: spec_u64_from_le_bytes(bytes.subrange(17, 25)),
                    side: spec_i8_from_byte(bytes[25]),
                    price: spec_i64_from_le_bytes(bytes.subrange(26, 34)),
                    exec_qty: spec_u32_from_le_bytes(bytes.subrange(34, 38)),
                    leaves_qty: spec_u32_from_le_bytes(bytes.subrange(38, 42)),
                },
            )
        } else {
            None
        }
    }

    /// The kind of this response, if its `msg_type` names one.
    pub open spec fn kind(self) -> Option<ClientResponseType> {
        ClientResponseType::of_code(self.msg_type)
    }

    /// Creates a response of the given kind.
    pub fn new(
        msg_type: ClientResponseType,
        client_id: u32,
        ticker_id: u32,
        client_order_id: u64,
        market_order_id: u64,
        side: i8,
        price: i64,
        exec_qty: u32,
        leaves_qty: u32,
    ) -> (r: ClientResponse)
        ensures
            r == (ClientResponse {
                msg_type: msg_type.code(),
                client_id,
                ticker_id,
                client_order_id,
                market_order_id,
                side,
                price,
                exec_qty,
                leaves_qty,
            }),
            r.kind() == Some(msg_type),
    {
        ClientResponse {
            msg_type: msg_type.as_u8(),
            client_id,
            ticker_id,
            client_order_id,
            market_order_id,
            side,
            price,
            exec_qty,
            leaves_qty,
        }
    }

    /// Returns the kind of this response; `None` if `msg_type` is unknown.
    pub fn response_type(&self) -> (r: Option<ClientResponseType>)
        ensures
            r == self.kind(),
    {
        ClientResponseType::from_u8(self.msg_type)
    }

    /// Encodes this record.
    pub fn as_bytes(&self) -> (bytes: Vec<u8>)
        ensures
            bytes@ == self.encode(),
            bytes@.len() == CLIENT_RESPONSE_SIZE,
    {
        let mut out: Vec<u8> = Vec::new();
        put_u8(&mut out, self.msg_type);
        put_u32(&mut out, self.client_id);
        put_u32(&mut out, self.ticker_id);
        put_u64(&mut out, self.client_order_id);
        put_u64(&mut out, self.market_order_id);
        put_i8(&mut out, self.side);
        put_i64(&mut out, self.price);
        put_u32(&mut out, self.exec_qty);
        put_u32(&mut out, self.leaves_qty);
        proof {
            lemma_auto_spec_u32_to_from_le_bytes();
            lemma_auto_spec_u64_to_from_le_bytes();
            assert(out@ =~= self.encode());
        }
        out
    }

    /// Decodes a record. Succeeds exactly when `bytes` is 42 bytes long.
    pub fn from_bytes(bytes: &[u8]) -> (r: Option<ClientResponse>)
        ensures
            r == ClientResponse::decode(bytes@),
            r is Some <==> bytes@.len() == CLIENT_RESPONSE_SIZE,
    {
        if bytes.len() != CLIENT_RESPONSE_SIZE {
            return None;
        }
        Some(
            ClientResponse {
                msg_type: bytes[0],
                client_id: take_u32(bytes, 1),
                ticker_id: take_u32(bytes, 5),
                client_order_id: take_u64(bytes, 9),
                market_order_id: take_u64(bytes, 17),
                side: take_i8(bytes, 25),
                price: take_i64(bytes, 26),
                exec_qty: take_u32(bytes, 34),
                leaves_qty: take_u32(bytes, 38),
            },
        )
    }

    /// Decoding what encoding produced gives the record back, and every
    /// encoding is 42 bytes long.
    pub proof fn lemma_roundtrip(self)
        ensures
            self.encode().len() == CLIENT_RESPONSE_SIZE,
            ClientResponse::decode(self.encode()) == Some(self),
    {
        lemma_auto_spec_u32_to_from_le_bytes();
        lemma_auto_spec_u64_to_from_le_bytes();
        lemma_signed_roundtrip(self.price, self.side);
        let e = self.encode();
        assert(e.len() == 42);
        assert(e.subrange(1, 5) =~= spec_u32_to_le_bytes(self.client_id));
        assert(e.subrange(5, 9) =~= spec_u32_to_le_bytes(self.ticker_id));
        assert(e.subrange(9, 17) =~= spec_u64_to_le_bytes(self.client_order_id));
        assert(e.subrange(17, 25) =~= spec_u64_to_le_bytes(self.market_order_id));
        assert(e.subrange(26, 34) =~= spec_i64_to_le_bytes(self.price));
        assert(e.subrange(34, 38) =~= spec_u32_to_le_bytes(self.exec_qty));
        assert(e.subrange(38, 42) =~= spec_u32_to_le_bytes(self.leaves_qty));
        assert(e[0] == self.msg_type);
        assert(e[25] == spec_i8_to_byte(self.side));
    }
}

/// One change to the public state of a book.
#[derive(Debug, Clone, Copy, PartialEq, Eq, Structural)]
pub struct MarketUpdate {
    pub msg_type: u8,
    pub ticker_id: u32,
    pub order_id: u64,
    pub side: i8,
    pub price: i64,
    pub qty: u32,
    pub priority: u64,
}

impl MarketUpdate {
    /// The 34 bytes of this record on the wire.
    pub open spec fn encode(self) -> Seq<u8> {
        seq![self.msg_type] + spec_u32_to_le_bytes(self.ticker_id) + spec_u64_to_le_bytes(
            self.order_id,
        ) + seq![spec_i8_to_byte(self.side)] + spec_i64_to_le_bytes(self.price)
            + spec_u32_to_le_bytes(self.qty) + spec_u64_to_le_bytes(self.priority)
    }

    /// The record that `bytes` holds: defined exactly for 34 bytes.
    pub open spec fn decode(bytes: Seq<u8>) -> Option<MarketUpdate> {
        if bytes.len() == MARKET_UPDATE_SIZE {
            Some(
                MarketUpdate {
                    msg_type: bytes[0],
                    ticker_id: spec_u32_from_le_bytes(bytes.subrange(1, 5)),
                    order_id: spec_u64_from_le_bytes(bytes.subrange(5, 13)),
                    side: spec_i8_from_byte(bytes[13]),
                    price: spec_i64_from_le_bytes(bytes.subrange(14, 22)),
                    qty: spec_u32_from_le_bytes(bytes.subrange(22, 26)),
                    priority: spec_u64_from_le_bytes(bytes.subrange(26, 34)),
                },
            )
        } else {
            None
        }
    }

    /// The kind of this update, if its `msg_type` names one.
    pub open spec fn kind(self) -> Option<MarketUpdateType> {
        MarketUpdateType::of_code(self.msg_type)
    }

    /// Creates an update of the given kind.
    pub fn new(
        msg_type: MarketUpdateType,
        ticker_id: u32,
        order_id: u64,
        side: i8,
        price: i64,
        qty: u32,
        priority: u64,
    ) -> (r: MarketUpdate)
        ensures
            r == (MarketUpdate {
                msg_type: msg_type.code(),
                ticker_id,
                order_id,
                side,
                price,
                qty,
                priority,
            }),
            r.kind() == Some(msg_type),
    {
        MarketUpdate { msg_type: msg_type.as_u8(), ticker_id, order_id, side, price, qty, priority }
    }

    /// Returns the kind of this update; `None` if `msg_type` is unknown.
    pub fn update_type(&self) -> (r: Option<MarketUpdateType>)
        ensures
            r == self.kind(),
    {
        MarketUpdateType::from_u8(self.msg_type)
    }

    /// Encodes this record.
    pub fn as_bytes(&self) -> (bytes: Vec<u8>)
        ensures
            bytes@ == self.encode(),
            bytes@.len() == MARKET_UPDATE_SIZE,
    {
        let mut out: Vec<u8> = Vec::new();
        put_u8(&mut out, self.msg_type);
        put_u32(&mut out, self.ticker_id);
        put_u64(&mut out, self.order_id);
        put_i8(&mut out, self.side);
        put_i64(&mut out, self.price);
        put_u32(&mut out, self.qty);
        put_u64(&mut out, self.priority);
        proof {
            lemma_auto_spec_u32_to_from_le_bytes();
            lemma_auto_spec_u64_to_from_le_bytes();
            assert(out@ =~= self.encode());
        }
        out
    }

    /// Decodes a record. Succeeds exactly when `bytes` is 34 bytes long.
    pub fn from_bytes(bytes: &[u8]) -> (r: Option<MarketUpdate>)
        ensures
            r == MarketUpdate::decode(bytes@),
            r is Some <==> bytes@.len() == MARKET_UPDATE_SIZE,
    {
        if bytes.len() != MARKET_UPDATE_SIZE {
            return None;
        }
        Some(
            MarketUpdate {
                msg_type: bytes[0],
                ticker_id: take_u32(bytes, 1),
                order_id: take_u64(bytes, 5),
                side: take_i8(bytes, 13),
                price: take_i64(bytes, 14),
                qty: take_u32(bytes, 22),
                priority: take_u64(bytes, 26),
            },
        )
    }

    /// Decoding what encoding produced gives the record back, and every
    /// encoding is 34 bytes long.
    pub proof fn lemma_roundtrip(self)
        ensures
            self.encode().len() == MARKET_UPDATE_SIZE,
            MarketUpdate::decode(self.encode()) == Some(self),
    {
        lemma_auto_spec_u32_to_from_le_bytes();
        lemma_auto_spec_u64_to_from_le_bytes();
        lemma_signed_roundtrip(self.price, self.side);
        let e = self.encode();
        assert(e.len() == 34);
        assert(e.subrange(1, 5) =~= spec_u32_to_le_bytes(self.ticker_id));
        assert(e.subrange(5, 13) =~= spec_u64_to_le_bytes(self.order_id));
        assert(e.subrange(14, 22) =~= spec_i64_to_le_bytes(self.price));
        assert(e.subrange(22, 26) =~= spec_u32_to_le_bytes(self.qty));
        assert(e.subrange(26, 34) =~= spec_u64_to_le_bytes(self.priority));
        assert(e[0] == self.msg_type);
        assert(e[13] == spec_i8_to_byte(self.side));
    }
}

} // verus!
