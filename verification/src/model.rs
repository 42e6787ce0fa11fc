//! The messages of the exchange and the settings of the program.
use vstd::prelude::*;

verus! {

/// A depth update of the exchange. Each level is a price text and a quantity text.
#[derive(Debug)]
pub struct BinanceDepthUpdate {
    pub event_type: String,
    /// When the exchange made the event, in milliseconds.
    pub event_time: i64,
    /// When the matching engine changed the book, in milliseconds.
    pub transaction_time: i64,
    pub symbol: String,
    /// The first update of this event.
    pub first_update_id: i64,
    /// The last update of this event.
    pub final_update_id: i64,
    /// The last update of the event before this one.
    pub prev_final_update_id: i64,
    pub bids: Vec<Vec<String>>,
    pub asks: Vec<Vec<String>>,
}

/// A depth snapshot of the exchange. Each level is a price text and a quantity text.
pub struct BinanceSnapshot {
    pub last_update_id: i64,
    pub bids: Vec<Vec<String>>,
    pub asks: Vec<Vec<String>>,
}

/// A message as it came in, not yet read.
#[derive(Debug, Clone)]
pub struct MarketMessage {
    pub exchange: &'static str,
    pub symbol: String,
    pub raw_json: String,
}

/// All settings.
#[derive(Debug, Clone)]
pub struct AppConfig {
    pub engine: EngineConfig,
    pub network: NetworkConfig,
    pub strategy: StrategyConfig,
    pub tradingpairs: TradingPairsConfig,
}

#[derive(Debug, Clone)]
pub struct EngineConfig {
    pub channel_buffer_size: usize,
    pub warmup_secs: u64,
    pub clock_tuning_threshold_vol: i64,
    pub report_interval_ms: u64,
}

#[derive(Debug, Clone)]
pub struct NetworkConfig {
    /// Past this latency, in milliseconds, a book is stale.
    pub latency_threshold: i64,
    /// The least latency that the network allows, in milliseconds.
    pub base_network_floor: i64,
    /// After how many messages the clock offset is computed anew.
    pub pkt_loop_threshold: i64,
}

#[derive(Debug, Clone)]
pub struct StrategyConfig {
    pub monitor_interval_ms: u64,
    /// How many levels of each side the imbalance looks at.
    pub signal_depth: u64,
}

#[derive(Debug, Clone)]
pub struct TradingPairsConfig {
    pub exchange: String,
    pub symbols: Vec<String>,
}

} // verus!
