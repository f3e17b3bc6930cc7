//! The exchange side: wire protocol, order book, matching engine, request
//! framing and the state behind the market-data feed.

pub mod protocol;
pub mod order_book;
pub mod matching_engine;
pub mod market_data;
pub mod order_server;
