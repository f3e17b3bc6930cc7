//! The state behind the market-data feed.
//!
//! The publisher numbers the deltas it publishes, counts them, and tracks
//! the top of the book of each instrument so that it can emit snapshots for
//! subscribers that joined late or lost datagrams. It sends nothing itself:
//! each call returns the records that the caller puts on the wire, one
//! datagram each.

use vstd::prelude::*;
use vstd::std_specs::iter::IteratorSpec;
use std::collections::HashMap;
use crate::common::types::{Price, Qty, TickerId, INVALID_PRICE};
use crate::exchange::protocol::{MarketUpdate, MarketUpdateType, MARKET_UPDATE_SIZE};
use crate::trading::market_data::BBO;

verus! {

broadcast use vstd::std_specs::hash::group_hash_axioms;

/// Settings of the publisher.
#[derive(Debug, Clone)]
pub struct MarketDataPublisherConfig {
    /// Multicast group address.
    pub multicast_addr: String,
    /// Multicast port.
    pub port: u16,
    /// Local interface address.
    pub interface: String,
    /// Time-to-live of the datagrams.
    pub ttl: u32,
    /// Whether top-of-book state is tracked and snapshots are emitted.
    pub enable_snapshots: bool,
    /// Number of published deltas after which snapshots are emitted; zero
    /// for never.
    pub snapshot_interval: usize,
}

impl Default for MarketDataPublisherConfig {
    fn default() -> (r: MarketDataPublisherConfig)
        ensures
            r.multicast_addr@ == "239.255.0.1"@,
            r.port == 5000,
            r.interface@ == "0.0.0.0"@,
            r.ttl == 1,
            r.enable_snapshots,
            r.snapshot_interval == 1000,
    {
        MarketDataPublisherConfig {
            multicast_addr: "239.255.0.1".to_string(),
            port: 5000,
            interface: "0.0.0.0".to_string(),
            ttl: 1,
            enable_snapshots: true,
            snapshot_interval: 1000,
        }
    }
}

/// The tracked top of the book of one instrument, with the sequence number
/// at its last update.
#[derive(Debug, Clone, Copy, PartialEq, Eq, Structural)]
pub struct TickerState {
    pub bid_price: Price,
    pub bid_qty: Qty,
    pub ask_price: Price,
    pub ask_qty: Qty,
    pub last_seq: u64,
}

impl Default for TickerState {
    fn default() -> (r: TickerState)
        ensures
            r == (TickerState { bid_price: 0, bid_qty: 0, ask_price: 0, ask_qty: 0, last_seq: 0 }),
    {
        TickerState { bid_price: 0, bid_qty: 0, ask_price: 0, ask_qty: 0, last_seq: 0 }
    }
}

impl TickerState {
    /// The state of an instrument of which nothing is known.
    pub open spec fn unknown() -> TickerState {
        TickerState {
            bid_price: INVALID_PRICE,
            bid_qty: 0,
            ask_price: INVALID_PRICE,
            ask_qty: 0,
            last_seq: 0,
        }
    }

    /// The best bid and offer of this state.
    pub open spec fn bbo(self) -> BBO {
        BBO {
            bid_price: self.bid_price,
            bid_qty: self.bid_qty,
            ask_price: self.ask_price,
            ask_qty: self.ask_qty,
        }
    }

    /// This state after the delta `update` was published as number
    /// `sequence`: best bid and offer follow the delta by the rules of
    /// [`BBO::after_update`].
    pub open spec fn after_update(self, update: MarketUpdate, sequence: u64) -> TickerState {
        let next = self.bbo().after_update(update);
        TickerState {
            bid_price: next.bid_price,
            bid_qty: next.bid_qty,
            ask_price: next.ask_price,
            ask_qty: next.ask_qty,
            last_seq: sequence,
        }
    }

    /// The snapshot records of this state for `ticker_id` at `sequence`: the
    /// bid if one is present, then the offer if one is present.
    pub open spec fn snapshots(self, ticker_id: TickerId, sequence: u64) -> Seq<MarketUpdate> {
        let bid = if self.bbo().bid_present() {
            seq![
                MarketUpdate {
                    msg_type: MarketUpdateType::Snapshot.code(),
                    ticker_id,
                    order_id: 0,
                    side: 1,
                    price: self.bid_price,
                    qty: self.bid_qty,
                    priority: sequence,
                },
            ]
        } else {
            Seq::empty()
        };
        let ask = if self.bbo().ask_present() {
            seq![
                MarketUpdate {
                    msg_type: MarketUpdateType::Snapshot.code(),
                    ticker_id,
                    order_id: 0,
                    side: -1i8,
                    price: self.ask_price,
                    qty: self.ask_qty,
                    priority: sequence,
                },
            ]
        } else {
            Seq::empty()
        };
        bid + ask
    }

    fn new() -> (r: TickerState)
        ensures
            r == TickerState::unknown(),
    {
        TickerState {
            bid_price: INVALID_PRICE,
            bid_qty: 0,
            ask_price: INVALID_PRICE,
            ask_qty: 0,
            last_seq: 0,
        }
    }

    fn apply(&mut self, update: &MarketUpdate, sequence: u64)
        ensures
            *final(self) == old(self).after_update(*update, sequence),
    {
        let mut view = BBO {
            bid_price: self.bid_price,
            bid_qty: self.bid_qty,
            ask_price: self.ask_price,
            ask_qty: self.ask_qty,
        };
        view.apply_update(update);
        self.bid_price = view.bid_price;
        self.bid_qty = view.bid_qty;
        self.ask_price = view.ask_price;
        self.ask_qty = view.ask_qty;
        self.last_seq = sequence;
    }

    fn emit(&self, ticker_id: TickerId, sequence: u64, out: &mut Vec<MarketUpdate>)
        ensures
            final(out)@ == old(out)@ + self.snapshots(ticker_id, sequence),
    {
        if self.bid_price != INVALID_PRICE && self.bid_qty > 0 {
            out.push(
                MarketUpdate::new(
                    MarketUpdateType::Snapshot,
                    ticker_id,
                    0,
                    1,
                    self.bid_price,
                    self.bid_qty,
                    sequence,
                ),
            );
        }
        if self.ask_price != INVALID_PRICE && self.ask_qty > 0 {
            out.push(
                MarketUpdate::new(
                    MarketUpdateType::Snapshot,
                    ticker_id,
                    0,
                    -1,
                    self.ask_price,
                    self.ask_qty,
                    sequence,
                ),
            );
        }
        assert(out@ =~= old(out)@ + self.snapshots(ticker_id, sequence));
    }
}

/// The state of an instrument in a map of states: its entry, or the unknown
/// state.
pub open spec fn state_of(states: Map<TickerId, TickerState>, ticker_id: TickerId) -> TickerState {
    if states.contains_key(ticker_id) {
        states[ticker_id]
    } else {
        TickerState::unknown()
    }
}

/// The snapshot records of the instruments `tickers`, in that order.
pub open spec fn snapshots_of(
    states: Map<TickerId, TickerState>,
    tickers: Seq<TickerId>,
    sequence: u64,
) -> Seq<MarketUpdate>
    decreases tickers.len(),
{
    if tickers.len() == 0 {
        Seq::empty()
    } else {
        snapshots_of(states, tickers.drop_last(), sequence) + state_of(
            states,
            tickers.last(),
        ).snapshots(tickers.last(), sequence)
    }
}

/// Whether `tickers` lists every instrument of `states` exactly once.
pub open spec fn lists_all(tickers: Seq<TickerId>, states: Map<TickerId, TickerState>) -> bool {
    tickers.no_duplicates() && tickers.to_set() == states.dom()
}

/// The clear record for an instrument at `sequence`.
pub open spec fn clear_record(ticker_id: TickerId, sequence: u64) -> MarketUpdate {
    MarketUpdate {
        msg_type: MarketUpdateType::Clear.code(),
        ticker_id,
        order_id: 0,
        side: 0,
        price: 0,
        qty: 0,
        priority: sequence,
    }
}

/// What the publisher keeps between calls.
pub ghost struct FeedState {
    /// Tracked top of book, by instrument.
    pub states: Map<TickerId, TickerState>,
    /// Number of deltas and clears published.
    pub sequence: u64,
    /// Deltas published since the last snapshot.
    pub since_snapshot: usize,
    /// Number of deltas and clears published.
    pub updates_sent: u64,
    /// Bytes of the deltas and clears published.
    pub bytes_sent: u64,
}

impl FeedState {
    /// Whether the counters have room for one more delta.
    pub open spec fn has_room(self) -> bool {
        &&& self.sequence < u64::MAX
        &&& self.since_snapshot < usize::MAX
        &&& self.updates_sent < u64::MAX
        &&& self.bytes_sent + MARKET_UPDATE_SIZE <= u64::MAX
    }

    /// Whether publishing one more delta makes snapshots due.
    pub open spec fn snapshot_due(self, config: MarketDataPublisherConfig) -> bool {
        config.enable_snapshots && config.snapshot_interval > 0 && self.since_snapshot + 1
            >= config.snapshot_interval
    }

    /// The tracked states after a delta: with snapshots enabled the state of
    /// the delta's instrument is created if need be and updated.
    pub open spec fn tracked_after(
        self,
        config: MarketDataPublisherConfig,
        update: MarketUpdate,
    ) -> Map<TickerId, TickerState> {
        if config.enable_snapshots {
            self.states.insert(
                update.ticker_id,
                state_of(self.states, update.ticker_id).after_update(update, self.sequence),
            )
        } else {
            self.states
        }
    }

    /// The state after publishing a delta.
    pub open spec fn after_publish(
        self,
        config: MarketDataPublisherConfig,
        update: MarketUpdate,
    ) -> FeedState {
        FeedState {
            states: self.tracked_after(config, update),
            sequence: (self.sequence + 1) as u64,
            since_snapshot: if self.snapshot_due(config) {
                0
            } else {
                (self.since_snapshot + 1) as usize
            },
            updates_sent: (self.updates_sent + 1) as u64,
            bytes_sent: (self.bytes_sent + MARKET_UPDATE_SIZE) as u64,
        }
    }

    /// The state after publishing a sequence of deltas.
    pub open spec fn after_batch(
        self,
        config: MarketDataPublisherConfig,
        updates: Seq<MarketUpdate>,
    ) -> FeedState
        decreases updates.len(),
    {
        if updates.len() == 0 {
            self
        } else {
            self.after_batch(config, updates.drop_last()).after_publish(config, updates.last())
        }
    }
}

/// Numbers published deltas and tracks the top of each book for snapshots.
pub struct MarketDataPublisher {
    config: MarketDataPublisherConfig,
    ticker_state: HashMap<TickerId, TickerState>,
    sequence: u64,
    updates_since_snapshot: usize,
    total_updates_sent: u64,
    total_bytes_sent: u64,
}

impl MarketDataPublisher {
    /// The state of the publisher.
    pub closed spec fn state(&self) -> FeedState {
        FeedState {
            states: self.ticker_state@,
            sequence: self.sequence,
            since_snapshot: self.updates_since_snapshot,
            updates_sent: self.total_updates_sent,
            bytes_sent: self.total_bytes_sent,
        }
    }

    /// The settings of the publisher.
    pub closed spec fn settings(&self) -> MarketDataPublisherConfig {
        self.config
    }

    /// Creates a publisher that has published nothing and tracks nothing.
    pub fn new(config: MarketDataPublisherConfig) -> (r: MarketDataPublisher)
        ensures
            r.settings() == config,
            r.state() == (FeedState {
                states: Map::empty(),
                sequence: 0,
                since_snapshot: 0,
                updates_sent: 0,
                bytes_sent: 0,
            }),
    {
        MarketDataPublisher {
            config,
            ticker_state: HashMap::new(),
            sequence: 0,
            updates_since_snapshot: 0,
            total_updates_sent: 0,
            total_bytes_sent: 0,
        }
    }

    /// Creates a publisher with the default settings.
    pub fn with_defaults() -> (r: MarketDataPublisher)
        ensures
            r.settings().port == 5000,
            r.settings().enable_snapshots,
            r.settings().snapshot_interval == 1000,
            r.state() == (FeedState {
                states: Map::empty(),
                sequence: 0,
                since_snapshot: 0,
                updates_sent: 0,
                bytes_sent: 0,
            }),
    {
        MarketDataPublisher::new(MarketDataPublisherConfig::default())
    }

    fn update_ticker_state(&mut self, ticker_id: TickerId, update: &MarketUpdate)
        ensures
            final(self).ticker_state@ == old(self).ticker_state@.insert(
                ticker_id,
                state_of(old(self).ticker_state@, ticker_id).after_update(
                    *update,
                    old(self).sequence,
                ),
            ),
            final(self).config == old(self).config,
            final(self).sequence == old(self).sequence,
            final(self).updates_since_snapshot == old(self).updates_since_snapshot,
            final(self).total_updates_sent == old(self).total_updates_sent,
            final(self).total_bytes_sent == old(self).total_bytes_sent,
    {
        let mut state = match self.ticker_state.get(&ticker_id) {
            Some(state) => *state,
            None => TickerState::new(),
        };
        state.apply(update, self.sequence);
        self.ticker_state.insert(ticker_id, state);
    }

    /// Returns whether the counters have room for one more delta.
    pub fn can_publish(&self) -> (r: bool)
        ensures
            r == self.state().has_room(),
    {
        self.sequence < u64::MAX && self.updates_since_snapshot < usize::MAX
            && self.total_updates_sent < u64::MAX && self.total_bytes_sent <= u64::MAX - 34
    }

    /// Publishes a delta. Returns the records to send, in order: the delta
    /// itself and, when the snapshot interval is reached, the snapshot
    /// records of every tracked instrument, in some order of the
    /// instruments, each at the new sequence number.
    pub fn publish(&mut self, update: &MarketUpdate) -> (r: Vec<MarketUpdate>)
        requires
            old(self).state().has_room(),
        ensures
            final(self).settings() == old(self).settings(),
            final(self).state() == old(self).state().after_publish(old(self).settings(), *update),
            r@.len() >= 1 && r@[0] == *update,
            !old(self).state().snapshot_due(old(self).settings()) ==> r@.len() == 1,
            old(self).state().snapshot_due(old(self).settings()) ==> exists|tickers: Seq<TickerId>|
                #![auto]
                lists_all(tickers, final(self).state().states) && r@.skip(1) == snapshots_of(
                    final(self).state().states,
                    tickers,
                    final(self).state().sequence,
                ),
    {
        let ticker_id = update.ticker_id;
        if self.config.enable_snapshots {
            self.update_ticker_state(ticker_id, update);
        }
        let mut out: Vec<MarketUpdate> = Vec::new();
        out.push(*update);
        self.sequence = self.sequence + 1;
        self.updates_since_snapshot = self.updates_since_snapshot + 1;
        self.total_updates_sent = self.total_updates_sent + 1;
        self.total_bytes_sent = self.total_bytes_sent + MARKET_UPDATE_SIZE as u64;
        if self.config.enable_snapshots && self.config.snapshot_interval > 0
            && self.updates_since_snapshot >= self.config.snapshot_interval {
            let ghost before = self.state();
            let mut snapshots = self.publish_snapshot();
            let ghost tail = snapshots@;
            out.append(&mut snapshots);
            proof {
                let tickers = choose|tickers: Seq<TickerId>|
                    #![auto]
                    lists_all(tickers, before.states) && tail == snapshots_of(
                        before.states,
                        tickers,
                        before.sequence,
                    );
                assert(out@.skip(1) =~= tail);
                assert(lists_all(tickers, self.state().states) && out@.skip(1) == snapshots_of(
                    self.state().states,
                    tickers,
                    self.state().sequence,
                ));
            }
        }
        out
    }

    /// Publishes several deltas, one after the other. Returns all records
    /// to send, in order.
    pub fn publish_batch(&mut self, updates: &[MarketUpdate]) -> (r: Vec<MarketUpdate>)
        requires
            old(self).state().sequence + updates@.len() <= u64::MAX,
            old(self).state().updates_sent + updates@.len() <= u64::MAX,
            old(self).state().since_snapshot + updates@.len() <= usize::MAX,
            old(self).state().bytes_sent + updates@.len() * MARKET_UPDATE_SIZE <= u64::MAX,
        ensures
            final(self).settings() == old(self).settings(),
            final(self).state() == old(self).state().after_batch(old(self).settings(), updates@),
            r@.len() >= updates@.len(),
    {
        let mut out: Vec<MarketUpdate> = Vec::new();
        let mut i: usize = 0;
        while i < updates.len()
            invariant
                i <= updates.len(),
                self.settings() == old(self).settings(),
                self.state() == old(self).state().after_batch(
                    old(self).settings(),
                    updates@.take(i as int),
                ),
                self.state().sequence == old(self).state().sequence + i,
                self.state().updates_sent == old(self).state().updates_sent + i,
                self.state().since_snapshot <= old(self).state().since_snapshot + i,
                self.state().bytes_sent == old(self).state().bytes_sent + i * MARKET_UPDATE_SIZE,
                old(self).state().sequence + updates@.len() <= u64::MAX,
                old(self).state().updates_sent + updates@.len() <= u64::MAX,
                old(self).state().since_snapshot + updates@.len() <= usize::MAX,
                old(self).state().bytes_sent + updates@.len() * MARKET_UPDATE_SIZE <= u64::MAX,
                out@.len() >= i,
            decreases updates.len() - i,
        {
            proof {
                assert(updates@.take(i + 1).drop_last() =~= updates@.take(i as int));
                assert(updates@.take(i + 1).last() == updates@[i as int]);
                assert(i * MARKET_UPDATE_SIZE + MARKET_UPDATE_SIZE <= updates@.len()
                    * MARKET_UPDATE_SIZE) by (nonlinear_arith)
                    requires
                        i < updates@.len(),
                ;
            }
            let mut sent = self.publish(&updates[i]);
            out.append(&mut sent);
            i = i + 1;
        }
        assert(updates@.take(i as int) =~= updates@);
        out
    }

    /// Emits the snapshot records of every tracked instrument, in some
    /// order of the instruments, and starts a new snapshot interval.
    pub fn publish_snapshot(&mut self) -> (r: Vec<MarketUpdate>)
        ensures
            final(self).settings() == old(self).settings(),
            final(self).state() == (FeedState { since_snapshot: 0, ..old(self).state() }),
            exists|tickers: Seq<TickerId>|
                #![auto]
                lists_all(tickers, old(self).state().states) && r@ == snapshots_of(
                    old(self).state().states,
                    tickers,
                    old(self).state().sequence,
                ),
    {
        let ticker_ids = self.tracked_tickers();
        let mut out: Vec<MarketUpdate> = Vec::new();
        let mut i: usize = 0;
        while i < ticker_ids.len()
            invariant
                i <= ticker_ids.len(),
                *self == *old(self),
                out@ == snapshots_of(
                    self.ticker_state@,
                    ticker_ids@.take(i as int),
                    self.sequence,
                ),
            decreases ticker_ids.len() - i,
        {
            let ticker_id = ticker_ids[i];
            let state = match self.ticker_state.get(&ticker_id) {
                Some(state) => *state,
                None => TickerState::new(),
            };
            proof {
                assert(ticker_ids@.take(i + 1).drop_last() =~= ticker_ids@.take(i as int));
                assert(ticker_ids@.take(i + 1).last() == ticker_id);
            }
            state.emit(ticker_id, self.sequence, &mut out);
            i = i + 1;
        }
        self.updates_since_snapshot = 0;
        proof {
            assert(ticker_ids@.take(i as int) =~= ticker_ids@);
            assert(lists_all(ticker_ids@, old(self).state().states));
        }
        out
    }

    fn tracked_tickers(&self) -> (r: Vec<TickerId>)
        ensures
            lists_all(r@, self.ticker_state@),
    {
        let mut out: Vec<TickerId> = Vec::new();
        let ghost keys = self.ticker_state.keys().remaining().unref();
        let ghost n: int = 0;
        for key in it: self.ticker_state.keys()
            invariant
                it.seq().unref() == keys,
                n == it.index(),
                keys.no_duplicates(),
                keys.to_set() == self.ticker_state@.dom(),
                out@ == keys.take(n),
        {
            out.push(*key);
            proof {
                assert(keys.take(n + 1) =~= keys.take(n).push(keys[n]));
                n = n + 1;
            }
        }
        proof {
            assert(keys.take(n) =~= keys);
        }
        out
    }

    /// Emits the snapshot records of one instrument; nothing for an
    /// instrument that is not tracked.
    pub fn publish_ticker_snapshot(&self, ticker_id: TickerId) -> (r: Vec<MarketUpdate>)
        ensures
            r@ == (if self.state().states.contains_key(ticker_id) {
                self.state().states[ticker_id].snapshots(ticker_id, self.state().sequence)
            } else {
                Seq::empty()
            }),
    {
        let mut out: Vec<MarketUpdate> = Vec::new();
        match self.ticker_state.get(&ticker_id) {
            Some(state) => {
                state.emit(ticker_id, self.sequence, &mut out);
            },
            None => {},
        }
        out
    }

    /// Publishes a clear for an instrument and stops tracking it. Returns
    /// the record to send.
    pub fn publish_clear(&mut self, ticker_id: TickerId) -> (r: MarketUpdate)
        requires
            old(self).state().has_room(),
        ensures
            r == clear_record(ticker_id, old(self).state().sequence),
            final(self).settings() == old(self).settings(),
            final(self).state() == (FeedState {
                states: old(self).state().states.remove(ticker_id),
                sequence: (old(self).state().sequence + 1) as u64,
                updates_sent: (old(self).state().updates_sent + 1) as u64,
                bytes_sent: (old(self).state().bytes_sent + MARKET_UPDATE_SIZE) as u64,
                ..old(self).state()
            }),
    {
        let update = MarketUpdate::new(MarketUpdateType::Clear, ticker_id, 0, 0, 0, 0, self.sequence);
        self.ticker_state.remove(&ticker_id);
        self.sequence = self.sequence + 1;
        self.total_updates_sent = self.total_updates_sent + 1;
        self.total_bytes_sent = self.total_bytes_sent + MARKET_UPDATE_SIZE as u64;
        update
    }

    /// Starts tracking an instrument, of which nothing is known yet. Does
    /// nothing for a tracked instrument.
    pub fn register_ticker(&mut self, ticker_id: TickerId)
        ensures
            final(self).settings() == old(self).settings(),
            final(self).state() == (FeedState {
                states: old(self).state().states.insert(
                    ticker_id,
                    state_of(old(self).state().states, ticker_id),
                ),
                ..old(self).state()
            }),
    {
        if !self.ticker_state.contains_key(&ticker_id) {
            self.ticker_state.insert(ticker_id, TickerState::new());
        } else {
            assert(self.ticker_state@ =~= self.ticker_state@.insert(
                ticker_id,
                self.ticker_state@[ticker_id],
            ));
        }
    }

    /// Returns the number of deltas and clears published.
    pub fn sequence(&self) -> (r: u64)
        ensures
            r == self.state().sequence,
    {
        self.sequence
    }

    /// Returns the number of deltas and clears published.
    pub fn total_updates_sent(&self) -> (r: u64)
        ensures
            r == self.state().updates_sent,
    {
        self.total_updates_sent
    }

    /// Returns the bytes of the deltas and clears published.
    pub fn total_bytes_sent(&self) -> (r: u64)
        ensures
            r == self.state().bytes_sent,
    {
        self.total_bytes_sent
    }

    /// Returns the number of tracked instruments.
    pub fn ticker_count(&self) -> (r: usize)
        ensures
            r == self.state().states.dom().len(),
    {
        self.ticker_state.len()
    }

    /// Returns the multicast group address.
    pub fn multicast_addr(&self) -> (r: &str)
        ensures
            r@ == self.settings().multicast_addr@,
    {
        self.config.multicast_addr.as_str()
    }

    /// Returns the multicast port.
    pub fn port(&self) -> (r: u16)
        ensures
            r == self.settings().port,
    {
        self.config.port
    }

    /// Returns the settings.
    pub fn config(&self) -> (r: &MarketDataPublisherConfig)
        ensures
            *r == self.settings(),
    {
        &self.config
    }

    /// Returns the tracked best bid and offer of an instrument: bid price,
    /// bid quantity, ask price, ask quantity.
    pub fn get_ticker_state(&self, ticker_id: TickerId) -> (r: Option<(Price, Qty, Price, Qty)>)
        ensures
            r is Some <==> self.state().states.contains_key(ticker_id),
            r matches Some(s) ==> {
                let state = self.state().states[ticker_id];
                s == (state.bid_price, state.bid_qty, state.ask_price, state.ask_qty)
            },
    {
        match self.ticker_state.get(&ticker_id) {
            Some(s) => Some((s.bid_price, s.bid_qty, s.ask_price, s.ask_qty)),
            None => None,
        }
    }
}

} // verus!
