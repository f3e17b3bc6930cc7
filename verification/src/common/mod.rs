//! Building blocks shared by the exchange and the trading client.

pub mod types;
pub mod mem_pool;
pub mod time;
pub mod lf_queue;
pub mod logging;
pub mod sums;
