//! The order gateway's logic: numbering outgoing orders, remembering them
//! until the exchange is done with them, and framing the stream of
//! responses.
//!
//! The socket is not part of this module: the caller sends the requests
//! that the gateway builds, and hands in the bytes it received.

use vstd::prelude::*;
use vstd::slice::slice_subrange;
use std::collections::HashMap;
use crate::common::time::Nanos;
use crate::common::types::{ClientId, OrderId, Price, Qty, Side, TickerId};
use crate::exchange::protocol::{
    ClientRequest, ClientRequestType, ClientResponse, ClientResponseType, CLIENT_RESPONSE_SIZE,
};

verus! {

broadcast use vstd::std_specs::hash::group_hash_axioms;

/// An order that was sent and is not yet done.
#[derive(Debug, Clone, Copy, PartialEq, Eq, Structural)]
pub struct PendingOrder {
    pub order_id: OrderId,
    pub ticker_id: TickerId,
    pub side: Side,
    pub price: Price,
    pub qty: Qty,
    pub sent_time: Nanos,
}

/// Whether a response ends the life of its order: a cancel, either kind of
/// rejection, or a fill that leaves nothing.
pub open spec fn is_terminal(response: ClientResponse) -> bool {
    match response.kind() {
        Some(ClientResponseType::Canceled) | Some(ClientResponseType::CancelRejected) | Some(
            ClientResponseType::InvalidRequest,
        ) => true,
        Some(ClientResponseType::Filled) => response.leaves_qty == 0,
        Some(ClientResponseType::Accepted) | None => false,
    }
}

/// The request that asks for a new order.
pub open spec fn new_order_request(
    client_id: ClientId,
    order_id: OrderId,
    ticker_id: TickerId,
    side: Side,
    price: Price,
    qty: Qty,
) -> ClientRequest {
    ClientRequest {
        msg_type: ClientRequestType::New.code(),
        client_id,
        ticker_id,
        order_id,
        side: side.sign() as i8,
        price,
        qty,
    }
}

/// The request that asks for the cancel of an order. Side, price and
/// quantity are those of the pending order where the gateway still knows
/// it, and zero otherwise.
pub open spec fn cancel_request(
    client_id: ClientId,
    order_id: OrderId,
    ticker_id: TickerId,
    pending: Map<OrderId, PendingOrder>,
) -> ClientRequest {
    if pending.contains_key(order_id) {
        ClientRequest {
            msg_type: ClientRequestType::Cancel.code(),
            client_id,
            ticker_id,
            order_id,
            side: pending[order_id].side.sign() as i8,
            price: pending[order_id].price,
            qty: pending[order_id].qty,
        }
    } else {
        ClientRequest {
            msg_type: ClientRequestType::Cancel.code(),
            client_id,
            ticker_id,
            order_id,
            side: 0,
            price: 0,
            qty: 0,
        }
    }
}

/// The client's end of the order connection, without the socket.
pub struct OrderGateway {
    client_id: ClientId,
    next_order_id: OrderId,
    pending_orders: HashMap<OrderId, PendingOrder>,
    recv_buffer: Vec<u8>,
}

impl OrderGateway {
    /// The client id of the session.
    pub closed spec fn client(&self) -> ClientId {
        self.client_id
    }

    /// The id that the next order receives.
    pub closed spec fn upcoming_id(&self) -> OrderId {
        self.next_order_id
    }

    /// The orders that were sent and are not yet done.
    pub closed spec fn pending(&self) -> Map<OrderId, PendingOrder> {
        self.pending_orders@
    }

    /// The bytes received but not yet framed.
    pub closed spec fn buffered(&self) -> Seq<u8> {
        self.recv_buffer@
    }

    /// Creates the gateway of a session. Order ids start at 1.
    pub fn new(client_id: ClientId) -> (r: OrderGateway)
        ensures
            r.client() == client_id,
            r.upcoming_id() == 1,
            r.pending() == Map::<OrderId, PendingOrder>::empty(),
            r.buffered() == Seq::<u8>::empty(),
    {
        OrderGateway {
            client_id,
            next_order_id: 1,
            pending_orders: HashMap::new(),
            recv_buffer: Vec::new(),
        }
    }

    /// Builds the request for a new order under the next id and remembers
    /// the order as pending. Returns the id and the request to send.
    pub fn send_new_order(
        &mut self,
        ticker_id: TickerId,
        side: Side,
        price: Price,
        qty: Qty,
        now: Nanos,
    ) -> (r: (OrderId, ClientRequest))
        requires
            old(self).upcoming_id() < u64::MAX,
        ensures
            r.0 == old(self).upcoming_id(),
            r.1 == new_order_request(old(self).client(), r.0, ticker_id, side, price, qty),
            final(self).client() == old(self).client(),
            final(self).upcoming_id() == old(self).upcoming_id() + 1,
            final(self).buffered() == old(self).buffered(),
            final(self).pending() == old(self).pending().insert(
                r.0,
                PendingOrder { order_id: r.0, ticker_id, side, price, qty, sent_time: now },
            ),
    {
        let order_id = self.next_order_id;
        self.next_order_id = order_id + 1;
        let request = ClientRequest::new(
            ClientRequestType::New,
            self.client_id,
            ticker_id,
            order_id,
            side.as_i8(),
            price,
            qty,
        );
        self.pending_orders.insert(
            order_id,
            PendingOrder { order_id, ticker_id, side, price, qty, sent_time: now },
        );
        (order_id, request)
    }

    /// Builds the request for the cancel of an order. Returns the request
    /// to send. Nothing changes until the exchange answers.
    pub fn send_cancel(&self, order_id: OrderId, ticker_id: TickerId) -> (r: ClientRequest)
        ensures
            r == cancel_request(self.client(), order_id, ticker_id, self.pending()),
    {
        let (side, price, qty) = match self.pending_orders.get(&order_id) {
            Some(pending) => (pending.side.as_i8(), pending.price, pending.qty),
            None => (0, 0, 0),
        };
        ClientRequest::new(
            ClientRequestType::Cancel,
            self.client_id,
            ticker_id,
            order_id,
            side,
            price,
            qty,
        )
    }

    /// Takes the bytes just received, which may be none, and frames at most
    /// one response.
    ///
    /// With fewer than 42 bytes collected nothing happens. Otherwise the
    /// first 42 bytes are consumed. A record of unknown kind is dropped. A
    /// record of known kind is returned, and the order it ends, if any, is
    /// no longer pending.
    pub fn poll(&mut self, data: &[u8]) -> (r: Option<ClientResponse>)
        ensures
            final(self).client() == old(self).client(),
            final(self).upcoming_id() == old(self).upcoming_id(),
            ({
                let bytes = old(self).buffered() + data@;
                if bytes.len() < CLIENT_RESPONSE_SIZE {
                    &&& r is None
                    &&& final(self).buffered() == bytes
                    &&& final(self).pending() == old(self).pending()
                } else {
                    let record = ClientResponse::decode(
                        bytes.subrange(0, CLIENT_RESPONSE_SIZE as int),
                    )->0;
                    &&& final(self).buffered() == bytes.skip(CLIENT_RESPONSE_SIZE as int)
                    &&& r == (if record.kind() is Some {
                        Some(record)
                    } else {
                        None
                    })
                    &&& final(self).pending() == (if is_terminal(record) {
                        old(self).pending().remove(record.client_order_id)
                    } else {
                        old(self).pending()
                    })
                }
            }),
    {
        self.recv_buffer.extend_from_slice(data);
        let ghost bytes = self.recv_buffer@;
        proof {
            assert(bytes =~= old(self).buffered() + data@);
        }
        if self.recv_buffer.len() < CLIENT_RESPONSE_SIZE {
            return None;
        }
        let decoded = ClientResponse::from_bytes(
            slice_subrange(self.recv_buffer.as_slice(), 0, CLIENT_RESPONSE_SIZE),
        );
        let rest = self.recv_buffer.split_off(CLIENT_RESPONSE_SIZE);
        self.recv_buffer = rest;
        proof {
            assert(self.recv_buffer@ =~= bytes.skip(CLIENT_RESPONSE_SIZE as int));
        }
        let response = match decoded {
            Some(response) => response,
            None => {
                return None;
            },
        };
        match response.response_type() {
            Some(ClientResponseType::Canceled) | Some(ClientResponseType::CancelRejected) | Some(
                ClientResponseType::InvalidRequest,
            ) => {
                self.pending_orders.remove(&response.client_order_id);
                Some(response)
            },
            Some(ClientResponseType::Filled) => {
                if response.leaves_qty == 0 {
                    self.pending_orders.remove(&response.client_order_id);
                }
                Some(response)
            },
            Some(ClientResponseType::Accepted) => Some(response),
            None => None,
        }
    }

    /// Returns a pending order.
    pub fn get_pending(&self, order_id: OrderId) -> (r: Option<&PendingOrder>)
        ensures
            r is Some <==> self.pending().contains_key(order_id),
            r matches Some(order) ==> *order == self.pending()[order_id],
    {
        self.pending_orders.get(&order_id)
    }

    /// Returns the number of pending orders.
    pub fn pending_count(&self) -> (r: usize)
        ensures
            r == self.pending().dom().len(),
    {
        self.pending_orders.len()
    }

    /// Returns the client id of the session.
    pub fn client_id(&self) -> (r: ClientId)
        ensures
            r == self.client(),
    {
        self.client_id
    }

    /// Returns the id that the next order receives.
    pub fn next_order_id(&self) -> (r: OrderId)
        ensures
            r == self.upcoming_id(),
    {
        self.next_order_id
    }
}

} // verus!
