//! Market-data item types mirroring the normalised schema published by the
//! market-data collector.
//!
//! Prices and sizes travel as IEEE-754 `f64` values; the library holds them as
//! their bit patterns (`f64::to_bits`), which it orders and carries but never
//! does arithmetic on.

use vstd::prelude::*;

verus! {

/// A single price level in the LOB.
#[derive(Debug, Clone, Copy, PartialEq, Eq, Structural)]
pub struct LobLevel {
    /// Bit pattern of the level price.
    pub price_bits: u64,
    /// Bit pattern of the level size.
    pub size_bits: u64,
}

/// Limit-order-book snapshot or incremental update.
#[derive(Debug, Clone)]
pub struct LobItem {
    /// Exchange timestamp in milliseconds since the Unix epoch.
    pub ts: u64,
    /// Source exchange name (e.g. `"okx"`, `"kraken"`, `"bitstamp"`).
    pub exchange: String,
    /// Bid levels, in wire order.
    pub bids: Vec<LobLevel>,
    /// Ask levels, in wire order.
    pub asks: Vec<LobLevel>,
}

/// A single trade execution.
#[derive(Debug, Clone)]
pub struct TradeItem {
    /// Exchange timestamp in milliseconds since the Unix epoch.
    pub ts: u64,
    /// Source exchange name.
    pub exchange: String,
    /// Bit pattern of the trade price.
    pub price_bits: u64,
    /// Bit pattern of the trade size (quantity).
    pub size_bits: u64,
    /// Trade side: `"buy"` or `"sell"`.
    pub side: String,
    /// Exchange-specific trade ID, if available.
    pub trade_id: Option<String>,
    /// Exchange-specific sequence ID, if available.
    pub seq_id: Option<u64>,
}

/// Normalised market-data item emitted by the ingest pipeline.
#[derive(Debug, Clone)]
pub enum MarketDataItem {
    Lob(LobItem),
    Trade(TradeItem),
}

impl MarketDataItem {
    /// Exchange timestamp in milliseconds since the Unix epoch.
    pub fn timestamp_ms(&self) -> (ts: u64)
        ensures
            ts == match self {
                MarketDataItem::Lob(l) => l.ts,
                MarketDataItem::Trade(t) => t.ts,
            },
    {
        match self {
            MarketDataItem::Lob(l) => l.ts,
            MarketDataItem::Trade(t) => t.ts,
        }
    }
}

/// The kind name of an item: `"lob"` or `"trade"`.
pub fn item_kind(item: &MarketDataItem) -> (kind: &'static str)
    ensures
        kind@ == match item {
            MarketDataItem::Lob(_) => seq!['l', 'o', 'b'],
            MarketDataItem::Trade(_) => seq!['t', 'r', 'a', 'd', 'e'],
        },
{
    proof {
        reveal_strlit("lob");
        reveal_strlit("trade");
    }
    match item {
        MarketDataItem::Lob(_) => "lob",
        MarketDataItem::Trade(_) => "trade",
    }
}

} // verus!
