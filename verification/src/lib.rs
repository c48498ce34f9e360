//! A windowed aggregation engine for cryptocurrency trade streams.
//!
//! Trades arrive as an unbounded, slightly out-of-order stream. The engine
//! buckets them into fixed-length time windows per instrument, deduplicates
//! redundant events, resolves quote currencies against an EMA-smoothed price
//! table, and turns every finalized bucket into an OHLCV candlestick bar.
//!
//! Prices, quantities and volumes are fixed-point integers scaled by
//! [`PRICE_SCALE`]: one unit is one millionth of the real-world value.
//! Transport, JSON codecs and clocks live outside this crate; everything
//! here is a pure function of its inputs.

pub mod aggregator;
pub mod bar;
pub mod candlestick;
pub mod engine;
pub mod price_cache;
pub mod pubsub;
pub mod resolver;
pub mod strings;
pub mod trade;
pub mod units;

pub use aggregator::Aggregator;
pub use aggregator::StepClass;
pub use bar::aggregate;
pub use bar::build_candlestick;
pub use bar::Bar;
pub use bar::Ohlcv;
pub use candlestick::duplicate_trade;
pub use candlestick::Candlestick;
pub use engine::Disposition;
pub use engine::Engine;
pub use price_cache::default_reference_currencies;
pub use price_cache::PriceCache;
pub use pubsub::Publisher;
pub use pubsub::Subscriber;
pub use resolver::default_stable_coins;
pub use resolver::extract_base;
pub use resolver::extract_quote;
pub use resolver::QuoteResolver;
pub use trade::MarketKind;
pub use trade::Side;
pub use trade::TradeEvent;
pub use units::MAX_AMOUNT;
pub use units::MAX_BUCKET_TRADES;
pub use units::MAX_INTERVAL;
pub use units::MAX_TIMESTAMP;
pub use units::PRICE_SCALE;
