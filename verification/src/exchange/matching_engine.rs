//! The matching engine: routes client requests to the book of their
//! instrument and turns the outcome into a response for the client and
//! deltas for the market-data feed.
//!
//! The engine assigns exchange order ids from one counter that starts at 1
//! and only grows, so an id is never used twice. Orders rest in the book;
//! crossing of prices is not part of this engine.

use vstd::prelude::*;
use std::collections::hash_map::Entry;
use std::collections::HashMap;
use crate::common::types::{OrderId, Side, TickerId};
use crate::exchange::order_book::{OrderBook, OrderData, ORDER_POOL_CAPACITY};
use crate::exchange::protocol::{
    ClientRequest, ClientRequestType, ClientResponse, ClientResponseType, MarketUpdate,
    MarketUpdateType,
};

verus! {

broadcast use vstd::std_specs::hash::group_hash_axioms;

/// The response that rejects a new order: `InvalidRequest`, no exchange id,
/// nothing executed, the whole quantity left.
pub open spec fn new_order_rejected(req: ClientRequest) -> ClientResponse {
    ClientResponse {
        msg_type: ClientResponseType::InvalidRequest.code(),
        client_id: req.client_id,
        ticker_id: req.ticker_id,
        client_order_id: req.order_id,
        market_order_id: 0,
        side: req.side,
        price: req.price,
        exec_qty: 0,
        leaves_qty: req.qty,
    }
}

/// The response that rejects a cancel: `CancelRejected`, no exchange id,
/// nothing executed, nothing left.
pub open spec fn cancel_rejected(req: ClientRequest) -> ClientResponse {
    ClientResponse {
        msg_type: ClientResponseType::CancelRejected.code(),
        client_id: req.client_id,
        ticker_id: req.ticker_id,
        client_order_id: req.order_id,
        market_order_id: 0,
        side: req.side,
        price: req.price,
        exec_qty: 0,
        leaves_qty: 0,
    }
}

/// The response that accepts a new order under the exchange id `id`.
pub open spec fn new_order_accepted(req: ClientRequest, id: OrderId) -> ClientResponse {
    ClientResponse {
        msg_type: ClientResponseType::Accepted.code(),
        client_id: req.client_id,
        ticker_id: req.ticker_id,
        client_order_id: req.order_id,
        market_order_id: id,
        side: req.side,
        price: req.price,
        exec_qty: 0,
        leaves_qty: req.qty,
    }
}

/// The delta that announces an accepted order. Its priority is the
/// exchange id.
pub open spec fn order_added(req: ClientRequest, id: OrderId) -> MarketUpdate {
    MarketUpdate {
        msg_type: MarketUpdateType::Add.code(),
        ticker_id: req.ticker_id,
        order_id: id,
        side: req.side,
        price: req.price,
        qty: req.qty,
        priority: id,
    }
}

/// The response that confirms a cancel. Side, price and remaining quantity
/// are those of the order that left the book, not those of the request.
pub open spec fn order_canceled(req: ClientRequest, removed: OrderData) -> ClientResponse {
    ClientResponse {
        msg_type: ClientResponseType::Canceled.code(),
        client_id: req.client_id,
        ticker_id: req.ticker_id,
        client_order_id: req.order_id,
        market_order_id: req.order_id,
        side: removed.side.sign() as i8,
        price: removed.price,
        exec_qty: 0,
        leaves_qty: removed.qty,
    }
}

/// The delta that announces a cancel, with the data of the removed order.
pub open spec fn cancel_published(req: ClientRequest, removed: OrderData) -> MarketUpdate {
    MarketUpdate {
        msg_type: MarketUpdateType::Cancel.code(),
        ticker_id: req.ticker_id,
        order_id: req.order_id,
        side: removed.side.sign() as i8,
        price: removed.price,
        qty: removed.qty,
        priority: removed.priority,
    }
}

/// The matching engine: one order book per instrument and the counter of
/// exchange order ids.
pub struct MatchingEngine {
    order_books: HashMap<TickerId, OrderBook>,
    next_order_id: OrderId,
}

impl Default for MatchingEngine {
    fn default() -> (engine: MatchingEngine)
        ensures
            engine.wf(),
            engine.next_id() == 1,
            engine.books() == Map::<TickerId, OrderBook>::empty(),
    {
        MatchingEngine::new()
    }
}

impl MatchingEngine {
    /// The books of the engine, by instrument.
    pub closed spec fn books(&self) -> Map<TickerId, OrderBook> {
        self.order_books@
    }

    /// The exchange id that the next new order receives.
    pub closed spec fn next_id(&self) -> OrderId {
        self.next_order_id
    }

    /// The invariant of the engine: every book is well-formed and filed
    /// under its own instrument, ids start at 1, and every resting order has
    /// an id and a priority below the counter.
    pub open spec fn wf(&self) -> bool {
        &&& self.next_id() >= 1
        &&& self.books().dom().finite()
        &&& forall|t: TickerId| #[trigger]
            self.books().contains_key(t) ==> {
                &&& self.books()[t].wf()
                &&& self.books()[t].ticker() == t
                &&& self.books()[t].next_priority_value() <= self.next_id()
                &&& forall|id: OrderId| #[trigger]
                    self.books()[t].orders().contains_key(id) ==> id < self.next_id()
            }
    }

    /// Whether a new-order request names a known instrument and a side.
    pub open spec fn routable(&self, req: ClientRequest) -> bool {
        self.books().contains_key(req.ticker_id) && Side::of_wire(req.side) is Some
    }

    /// Creates an engine with no instruments. Exchange ids start at 1.
    pub fn new() -> (engine: MatchingEngine)
        ensures
            engine.wf(),
            engine.next_id() == 1,
            engine.books() == Map::<TickerId, OrderBook>::empty(),
    {
        MatchingEngine { order_books: HashMap::new(), next_order_id: 1 }
    }

    /// Registers an instrument with an empty book. Does nothing if the
    /// instrument is known.
    pub fn add_ticker(&mut self, ticker_id: TickerId)
        requires
            old(self).wf(),
        ensures
            final(self).wf(),
            final(self).next_id() == old(self).next_id(),
            old(self).books().contains_key(ticker_id) ==> final(self).books() == old(self).books(),
            !old(self).books().contains_key(ticker_id) ==> {
                &&& final(self).books().dom() == old(self).books().dom().insert(ticker_id)
                &&& final(self).books()[ticker_id].orders() == Map::<OrderId, OrderData>::empty()
                &&& forall|t: TickerId|
                    old(self).books().contains_key(t) ==> final(self).books()[t] == old(self).books()[t]
            },
    {
        if !self.order_books.contains_key(&ticker_id) {
            let book = OrderBook::new(ticker_id);
            self.order_books.insert(ticker_id, book);
            assert(final(self).books().dom() =~= old(self).books().dom().insert(ticker_id));
        }
    }

    /// Processes one request. The kind of the request decides: a new order,
    /// a cancel, or, for an unknown `msg_type`, a rejection that changes
    /// nothing.
    pub fn process_request(&mut self, request: &ClientRequest) -> (r: (
        ClientResponse,
        Vec<MarketUpdate>,
    ))
        requires
            old(self).wf(),
            old(self).next_id() < u64::MAX,
        ensures
            final(self).wf(),
            final(self).books().dom() == old(self).books().dom(),
            forall|t: TickerId|
                t != request.ticker_id && old(self).books().contains_key(t) ==> final(self).books()[t] == old(self).books()[t],
            request.kind() is None ==> {
                &&& r.0 == new_order_rejected(*request)
                &&& r.1@ == Seq::<MarketUpdate>::empty()
                &&& final(self).books() == old(self).books()
                &&& final(self).next_id() == old(self).next_id()
            },
            request.kind() == Some(ClientRequestType::New) ==> old(self).new_order_outcome(
                final(self),
                *request,
                r.0,
                r.1@,
            ),
            request.kind() == Some(ClientRequestType::Cancel) ==> old(self).cancel_outcome(
                final(self),
                *request,
                r.0,
                r.1@,
            ),
    {
        match ClientRequestType::from_u8(request.msg_type) {
            Some(ClientRequestType::New) => self.handle_new_order(request),
            Some(ClientRequestType::Cancel) => self.handle_cancel(request),
            None => self.handle_invalid_request(request),
        }
    }

    /// What a new-order request does, from the engine `self` before to the
    /// engine `after`.
    ///
    /// * Unknown instrument or a side byte other than `+1` and `-1`: rejected,
    ///   nothing changes, no id is used.
    /// * Otherwise the next id is used. If the book has room, the order rests
    ///   at the tail of its level under that id, the response accepts it and
    ///   one `Add` delta announces it. If the book is full, the request is
    ///   rejected and the book stays as it is.
    pub open spec fn new_order_outcome(
        &self,
        after: &MatchingEngine,
        req: ClientRequest,
        response: ClientResponse,
        updates: Seq<MarketUpdate>,
    ) -> bool {
        if !self.routable(req) {
            &&& response == new_order_rejected(req)
            &&& updates == Seq::<MarketUpdate>::empty()
            &&& after.books() == self.books()
            &&& after.next_id() == self.next_id()
        } else {
            let id = self.next_id();
            let side = Side::of_wire(req.side)->0;
            let before = self.books()[req.ticker_id];
            let book = after.books()[req.ticker_id];
            &&& after.next_id() == id + 1
            &&& if before.orders().len() < ORDER_POOL_CAPACITY {
                &&& response == new_order_accepted(req, id)
                &&& updates == seq![order_added(req, id)]
                &&& book.orders() == before.orders().insert(
                    id,
                    OrderData {
                        order_id: id,
                        client_id: req.client_id,
                        ticker_id: req.ticker_id,
                        side,
                        price: req.price,
                        qty: req.qty,
                        priority: before.next_priority_value(),
                    },
                )
                &&& book.queue(side, req.price) == before.queue(side, req.price).push(id)
                &&& forall|s: Side, p: i64|
                    (s != side || p != req.price) ==> book.queue(s, p) == before.queue(s, p)
            } else {
                &&& response == new_order_rejected(req)
                &&& updates == Seq::<MarketUpdate>::empty()
                &&& book == before
            }
        }
    }

    /// What a cancel request does, from the engine `self` before to the
    /// engine `after`.
    ///
    /// * Unknown instrument, or no order with this id in its book: rejected,
    ///   nothing changes.
    /// * Otherwise the order leaves its book, the response confirms with the
    ///   removed order's side, price and remaining quantity, and one
    ///   `Cancel` delta announces it.
    pub open spec fn cancel_outcome(
        &self,
        after: &MatchingEngine,
        req: ClientRequest,
        response: ClientResponse,
        updates: Seq<MarketUpdate>,
    ) -> bool {
        &&& after.next_id() == self.next_id()
        &&& if self.books().contains_key(req.ticker_id) && self.books()[req.ticker_id].orders().contains_key(
            req.order_id,
        ) {
            let before = self.books()[req.ticker_id];
            let book = after.books()[req.ticker_id];
            let removed = before.orders()[req.order_id];
            let queue = before.queue(removed.side, removed.price);
            &&& response == order_canceled(req, removed)
            &&& updates == seq![cancel_published(req, removed)]
            &&& book.orders() == before.orders().remove(req.order_id)
            &&& queue.contains(req.order_id)
            &&& book.queue(removed.side, removed.price) == queue.remove(
                queue.index_of(req.order_id),
            )
            &&& forall|s: Side, p: i64|
                (s != removed.side || p != removed.price) ==> book.queue(s, p) == before.queue(
                    s,
                    p,
                )
        } else {
            &&& response == cancel_rejected(req)
            &&& updates == Seq::<MarketUpdate>::empty()
            &&& after.books() == self.books()
        }
    }

    fn handle_new_order(&mut self, request: &ClientRequest) -> (r: (
        ClientResponse,
        Vec<MarketUpdate>,
    ))
        requires
            old(self).wf(),
            old(self).next_id() < u64::MAX,
        ensures
            final(self).wf(),
            final(self).books().dom() == old(self).books().dom(),
            forall|t: TickerId|
                t != request.ticker_id && old(self).books().contains_key(t) ==> final(self).books()[t] == old(self).books()[t],
            old(self).new_order_outcome(final(self), *request, r.0, r.1@),
    {
        let client_id = request.client_id;
        let ticker_id = request.ticker_id;
        let client_order_id = request.order_id;
        let side_raw = request.side;
        let price = request.price;
        let qty = request.qty;

        if !self.order_books.contains_key(&ticker_id) {
            return Self::create_reject_response(request);
        }
        let side = match Side::from_i8(side_raw) {
            Some(side) => side,
            None => {
                return Self::create_reject_response(request);
            },
        };
        let market_order_id = self.next_order_id;
        self.next_order_id = market_order_id + 1;

        let mut book = match self.order_books.remove(&ticker_id) {
            Some(book) => book,
            None => {
                return Self::create_reject_response(request);
            },
        };
        let ghost before = book;
        proof {
            assert(before == old(self).books()[ticker_id]);
            assert(!before.orders().contains_key(market_order_id));
        }
        let result = book.add_order(client_id, market_order_id, side, price, qty);
        let accepted = result.is_some();
        self.order_books.insert(ticker_id, book);
        proof {
            assert(final(self).books().dom() =~= old(self).books().dom());
            assert forall|t: TickerId| #[trigger] final(self).books().contains_key(t) implies {
                &&& final(self).books()[t].wf()
                &&& final(self).books()[t].ticker() == t
                &&& final(self).books()[t].next_priority_value() <= final(self).next_id()
                &&& forall|id: OrderId| #[trigger]
                    final(self).books()[t].orders().contains_key(id) ==> id < final(self).next_id()
            } by {
                assert(old(self).books().contains_key(t));
                if t != ticker_id {
                    assert(final(self).books()[t] == old(self).books()[t]);
                }
            }
        }
        if accepted {
            let response = ClientResponse::new(
                ClientResponseType::Accepted,
                client_id,
                ticker_id,
                client_order_id,
                market_order_id,
                side_raw,
                price,
                0,
                qty,
            );
            let update = MarketUpdate::new(
                MarketUpdateType::Add,
                ticker_id,
                market_order_id,
                side_raw,
                price,
                qty,
                market_order_id,
            );
            let mut updates: Vec<MarketUpdate> = Vec::new();
            updates.push(update);
            assert(updates@ =~= seq![order_added(*request, market_order_id)]);
            (response, updates)
        } else {
            Self::create_reject_response(request)
        }
    }

    fn handle_cancel(&mut self, request: &ClientRequest) -> (r: (
        ClientResponse,
        Vec<MarketUpdate>,
    ))
        requires
            old(self).wf(),
        ensures
            final(self).wf(),
            final(self).books().dom() == old(self).books().dom(),
            forall|t: TickerId|
                t != request.ticker_id && old(self).books().contains_key(t) ==> final(self).books()[t] == old(self).books()[t],
            old(self).cancel_outcome(final(self), *request, r.0, r.1@),
    {
        let client_id = request.client_id;
        let ticker_id = request.ticker_id;
        let order_id = request.order_id;

        let mut book = match self.order_books.remove(&ticker_id) {
            Some(book) => book,
            None => {
                assert(final(self).books() =~= old(self).books());
                return Self::create_cancel_reject_response(request);
            },
        };
        let ghost before = book;
        let canceled = book.cancel_order(order_id);
        self.order_books.insert(ticker_id, book);
        proof {
            assert(final(self).books().dom() =~= old(self).books().dom());
            assert forall|t: TickerId| #[trigger] final(self).books().contains_key(t) implies {
                &&& final(self).books()[t].wf()
                &&& final(self).books()[t].ticker() == t
                &&& final(self).books()[t].next_priority_value() <= final(self).next_id()
                &&& forall|id: OrderId| #[trigger]
                    final(self).books()[t].orders().contains_key(id) ==> id < final(self).next_id()
            } by {
                assert(old(self).books().contains_key(t));
                if t != ticker_id {
                    assert(final(self).books()[t] == old(self).books()[t]);
                } else {
                    assert forall|id: OrderId| #[trigger]
                        final(self).books()[t].orders().contains_key(id) implies id < final(self).next_id() by {
                        assert(before.orders().contains_key(id));
                    }
                }
            }
        }
        match canceled {
            Some(order) => {
                let side_raw = order.side.as_i8();
                let response = ClientResponse::new(
                    ClientResponseType::Canceled,
                    client_id,
                    ticker_id,
                    order_id,
                    order_id,
                    side_raw,
                    order.price,
                    0,
                    order.qty,
                );
                let update = MarketUpdate::new(
                    MarketUpdateType::Cancel,
                    ticker_id,
                    order_id,
                    side_raw,
                    order.price,
                    order.qty,
                    order.priority,
                );
                let mut updates: Vec<MarketUpdate> = Vec::new();
                updates.push(update);
                assert(updates@ =~= seq![cancel_published(*request, order@)]);
                (response, updates)
            },
            None => {
                assert(final(self).books() =~= old(self).books());
                Self::create_cancel_reject_response(request)
            },
        }
    }

    fn handle_invalid_request(&self, request: &ClientRequest) -> (r: (
        ClientResponse,
        Vec<MarketUpdate>,
    ))
        ensures
            r.0 == new_order_rejected(*request),
            r.1@ == Seq::<MarketUpdate>::empty(),
    {
        Self::create_reject_response(request)
    }

    fn create_reject_response(request: &ClientRequest) -> (r: (ClientResponse, Vec<MarketUpdate>))
        ensures
            r.0 == new_order_rejected(*request),
            r.1@ == Seq::<MarketUpdate>::empty(),
    {
        let response = ClientResponse::new(
            ClientResponseType::InvalidRequest,
            request.client_id,
            request.ticker_id,
            request.order_id,
            0,
            request.side,
            request.price,
            0,
            request.qty,
        );
        (response, Vec::new())
    }

    fn create_cancel_reject_response(request: &ClientRequest) -> (r: (
        ClientResponse,
        Vec<MarketUpdate>,
    ))
        ensures
            r.0 == cancel_rejected(*request),
            r.1@ == Seq::<MarketUpdate>::empty(),
    {
        let response = ClientResponse::new(
            ClientResponseType::CancelRejected,
            request.client_id,
            request.ticker_id,
            request.order_id,
            0,
            request.side,
            request.price,
            0,
            0,
        );
        (response, Vec::new())
    }

    /// Returns the book of an instrument, or `None` for an unknown one.
    pub fn get_order_book(&self, ticker_id: TickerId) -> (r: Option<&OrderBook>)
        ensures
            r is Some <==> self.books().contains_key(ticker_id),
            r matches Some(book) ==> *book == self.books()[ticker_id],
    {
        self.order_books.get(&ticker_id)
    }

    /// Returns the book of an instrument for writing, or `None` for an
    /// unknown one. The engine afterwards holds the book as the caller left
    /// it; keeping it within the engine's invariant is the caller's part.
    pub fn get_order_book_mut(&mut self, ticker_id: TickerId) -> (r: Option<&mut OrderBook>)
        ensures
            r is Some <==> old(self).books().contains_key(ticker_id),
            match r {
                Some(book) => {
                    &&& *book == old(self).books()[ticker_id]
                    &&& final(self).books() == old(self).books().insert(ticker_id, *final(book))
                },
                None => final(self).books() == old(self).books(),
            },
            final(self).next_id() == old(self).next_id(),
    {
        match self.order_books.entry(ticker_id) {
            Entry::Occupied(occupied) => Some(occupied.into_mut()),
            Entry::Vacant(_) => {
                proof {
                    assert(old(self).books().remove(ticker_id) =~= old(self).books());
                }
                None
            },
        }
    }

    /// Returns the number of instruments.
    pub fn ticker_count(&self) -> (r: usize)
        ensures
            r == self.books().dom().len(),
    {
        self.order_books.len()
    }

    /// Returns the exchange id that the next new order receives.
    pub fn next_order_id(&self) -> (r: OrderId)
        ensures
            r == self.next_id(),
    {
        self.next_order_id
    }
}

} // verus!
