//! The trading client: market view, positions, risk, order flow and the
//! engine that ties them together.

pub mod market_data;
pub mod position;
pub mod risk;
pub mod strategies;
pub mod trade_engine;
pub mod order_gateway;
pub mod client;
