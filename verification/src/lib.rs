//! A low-latency trading stack: the single-threaded core of an exchange and of
//! a trading client, with machine-checked contracts.
//!
//! * [`common`] holds the scalar types, the bounded ring, the slot pool,
//!   timestamps and sums over finite sets.
//! * [`exchange`] holds the wire protocol, the order book, the matching
//!   engine, request framing and sequencing, and the state behind the
//!   market-data feed.
//! * [`trading`] holds the client side: top-of-book tracking, positions,
//!   pre-trade risk, response framing, the trade engine and the integer
//!   decisions of the strategies.
//!
//! The library opens no socket, starts no thread and reads no clock. Bytes,
//! events and the time come in as arguments; requests, responses and
//! datagrams to send go out as results.

pub mod common;
pub mod exchange;
pub mod trading;
