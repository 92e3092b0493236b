//! The rows that persist one market-data item.
//!
//! A trade becomes one `trades` row. A LOB event becomes one `lob_snapshots`
//! row holding the top of book and one `lob_levels` row per level, each level
//! linked to its snapshot through `snapshot_id` and indexed from 0 (the best
//! price) in best-first order. An event whose best bid is above its best ask
//! (a crossed book) is invalid and persists nothing.

use vstd::prelude::*;
use crate::items::{LobItem, LobLevel, TradeItem};
use crate::lob::{BookSide, best_level, is_stable_best_first, sort_side, spec_best};
use crate::price::{price_gt, spec_price_gt};

verus! {

/// Nanoseconds per millisecond.
pub const NANOS_PER_MILLI: i64 = 1_000_000;

/// The wire timestamp reinterpreted as a signed 64-bit value (`ts as i64`).
pub open spec fn wire_ts_i64(ts: u64) -> int {
    if ts <= i64::MAX {
        ts as int
    } else {
        ts - 0x1_0000_0000_0000_0000int
    }
}

/// The event timestamp in nanoseconds: `(ts as i64) * 1_000_000`.
pub open spec fn event_nanos(ts: u64) -> int {
    wire_ts_i64(ts) * NANOS_PER_MILLI
}

/// Whether the event timestamp in nanoseconds fits in an `i64`.
pub open spec fn event_nanos_fits(ts: u64) -> bool {
    i64::MIN <= event_nanos(ts) <= i64::MAX
}

/// `ts as i64`.
pub fn wire_ts(ts: u64) -> (t: i64)
    ensures
        t == wire_ts_i64(ts),
{
    if ts <= 9_223_372_036_854_775_807u64 {
        ts as i64
    } else {
        ((ts - 9_223_372_036_854_775_808u64) as i64) + i64::MIN
    }
}

/// The event timestamp of an item in nanoseconds, or `None` when
/// `(ts as i64) * 1_000_000` overflows an `i64`.
pub fn checked_event_nanos(ts: u64) -> (r: Option<i64>)
    ensures
        r is Some <==> event_nanos_fits(ts),
        r matches Some(n) ==> n == event_nanos(ts),
{
    let t = wire_ts(ts);
    t.checked_mul(NANOS_PER_MILLI)
}

/// The latency column: the insertion time minus the event time, both in
/// nanoseconds, or `None` when the difference overflows an `i64`.
pub fn latency_nanos(insert_ts_nanos: i64, event_ts_nanos: i64) -> (r: Option<i64>)
    ensures
        r is Some <==> i64::MIN <= insert_ts_nanos - event_ts_nanos <= i64::MAX,
        r matches Some(l) ==> l == insert_ts_nanos - event_ts_nanos,
{
    insert_ts_nanos.checked_sub(event_ts_nanos)
}

/// The computed fields of a `trades` row; the other columns are the trade's
/// own fields.
#[derive(Debug)]
pub struct TradeRow {
    /// Event timestamp in nanoseconds (the designated timestamp).
    pub event_ts_nanos: i64,
    /// The trade ID, or the empty string when the trade has none.
    pub trade_id: String,
    /// The sequence ID, or `-1` when the trade has none or it exceeds `i64::MAX`.
    pub seq_id: i64,
}

/// The sequence ID column: the trade's sequence ID when it fits an `i64`,
/// `-1` otherwise.
pub open spec fn spec_seq_id_column(seq_id: Option<u64>) -> int {
    match seq_id {
        Some(v) => if v <= i64::MAX {
            v as int
        } else {
            -1
        },
        None => -1,
    }
}

/// The computed columns of the `trades` row of a trade.
pub fn plan_trade(trade: &TradeItem) -> (row: TradeRow)
    requires
        event_nanos_fits(trade.ts),
    ensures
        row.event_ts_nanos == event_nanos(trade.ts),
        row.trade_id@ == match trade.trade_id {
            Some(id) => id@,
            None => Seq::<char>::empty(),
        },
        row.seq_id == spec_seq_id_column(trade.seq_id),
{
    let event_ts_nanos = wire_ts(trade.ts) * NANOS_PER_MILLI;
    let trade_id = match &trade.trade_id {
        Some(id) => id.clone(),
        None => String::new(),
    };
    let seq_id: i64 = match trade.seq_id {
        Some(v) => if v <= 9_223_372_036_854_775_807u64 {
            v as i64
        } else {
            -1
        },
        None => -1,
    };
    TradeRow { event_ts_nanos, trade_id, seq_id }
}

/// The `lob_snapshots` row of a LOB event. Absent best levels are written as
/// `0.0` (bit pattern 0).
#[derive(Debug, Clone, Copy, PartialEq, Eq, Structural)]
pub struct SnapshotRow {
    /// Snapshot identifier: the event timestamp in nanoseconds.
    pub snapshot_id: i64,
    /// Sequence: the wire timestamp.
    pub sequence: i64,
    /// Bit pattern of the best bid price.
    pub best_bid_price_bits: u64,
    /// Bit pattern of the best bid size.
    pub best_bid_size_bits: u64,
    /// Bit pattern of the best ask price.
    pub best_ask_price_bits: u64,
    /// Bit pattern of the best ask size.
    pub best_ask_size_bits: u64,
}

/// The rows of a valid LOB event: level `i` of a side is element `i` of its
/// sorted vector.
#[derive(Debug)]
pub struct LobRows {
    /// Event timestamp in nanoseconds (the designated timestamp of every row).
    pub event_ts_nanos: i64,
    /// The `lob_snapshots` row.
    pub snapshot: SnapshotRow,
    /// Bid levels, best (highest price) first.
    pub bids: Vec<LobLevel>,
    /// Ask levels, best (lowest price) first.
    pub asks: Vec<LobLevel>,
}

/// What to do with a LOB event.
#[derive(Debug)]
pub enum LobPlan {
    /// Persist the snapshot row and the level rows.
    Persist(LobRows),
    /// The best bid is above the best ask: the event is invalid, nothing is
    /// persisted.
    Crossed { best_bid: LobLevel, best_ask: LobLevel },
}

/// Whether the book is crossed: both sides have a best level and the best
/// bid price is greater than the best ask price.
pub open spec fn spec_crossed(bids: Seq<LobLevel>, asks: Seq<LobLevel>) -> bool {
    match (spec_best(BookSide::Bid, bids), spec_best(BookSide::Ask, asks)) {
        (Some(b), Some(a)) => spec_price_gt(b.price_bits, a.price_bits),
        _ => false,
    }
}

/// The price bits of a best level, `0.0` when there is none.
pub open spec fn best_price_bits(best: Option<LobLevel>) -> u64 {
    match best {
        Some(l) => l.price_bits,
        None => 0,
    }
}

/// The size bits of a best level, `0.0` when there is none.
pub open spec fn best_size_bits(best: Option<LobLevel>) -> u64 {
    match best {
        Some(l) => l.size_bits,
        None => 0,
    }
}

/// Whether the best bid of a LOB event is above its best ask.
pub fn is_crossed(lob: &LobItem) -> (r: bool)
    ensures
        r == spec_crossed(lob.bids@, lob.asks@),
{
    match (best_level(&lob.bids, BookSide::Bid), best_level(&lob.asks, BookSide::Ask)) {
        (Some(b), Some(a)) => price_gt(b.price_bits, a.price_bits),
        _ => false,
    }
}

/// Plan the persistence of a LOB event: sort both sides best first, reject
/// a crossed book, and build the snapshot row from the best levels.
///
/// A crossed book is reported whatever its timestamp; the timestamp in
/// nanoseconds must fit an `i64` only where rows are written.
pub fn plan_lob(lob: &LobItem) -> (plan: LobPlan)
    requires
        spec_crossed(lob.bids@, lob.asks@) || event_nanos_fits(lob.ts),
    ensures
        plan is Crossed <==> spec_crossed(lob.bids@, lob.asks@),
        plan matches LobPlan::Crossed { best_bid, best_ask } ==> {
            &&& spec_best(BookSide::Bid, lob.bids@) == Some(best_bid)
            &&& spec_best(BookSide::Ask, lob.asks@) == Some(best_ask)
        },
        plan matches LobPlan::Persist(rows) ==> {
            &&& rows.event_ts_nanos == event_nanos(lob.ts)
            &&& rows.snapshot.snapshot_id == event_nanos(lob.ts)
            &&& rows.snapshot.sequence == wire_ts_i64(lob.ts)
            &&& is_stable_best_first(BookSide::Bid, lob.bids@, rows.bids@)
            &&& is_stable_best_first(BookSide::Ask, lob.asks@, rows.asks@)
            &&& rows.snapshot.best_bid_price_bits == best_price_bits(
                spec_best(BookSide::Bid, lob.bids@),
            )
            &&& rows.snapshot.best_bid_size_bits == best_size_bits(
                spec_best(BookSide::Bid, lob.bids@),
            )
            &&& rows.snapshot.best_ask_price_bits == best_price_bits(
                spec_best(BookSide::Ask, lob.asks@),
            )
            &&& rows.snapshot.best_ask_size_bits == best_size_bits(
                spec_best(BookSide::Ask, lob.asks@),
            )
        },
{
    let bids = sort_side(&lob.bids, BookSide::Bid);
    let asks = sort_side(&lob.asks, BookSide::Ask);
    if bids.len() > 0 && asks.len() > 0 {
        let best_bid = bids[0];
        let best_ask = asks[0];
        if price_gt(best_bid.price_bits, best_ask.price_bits) {
            return LobPlan::Crossed { best_bid, best_ask };
        }
    }
    let sequence = wire_ts(lob.ts);
    let event_ts_nanos = sequence * NANOS_PER_MILLI;
    let (best_bid_price_bits, best_bid_size_bits) = if bids.len() > 0 {
        (bids[0].price_bits, bids[0].size_bits)
    } else {
        (0u64, 0u64)
    };
    let (best_ask_price_bits, best_ask_size_bits) = if asks.len() > 0 {
        (asks[0].price_bits, asks[0].size_bits)
    } else {
        (0u64, 0u64)
    };
    let snapshot = SnapshotRow {
        snapshot_id: event_ts_nanos,
        sequence,
        best_bid_price_bits,
        best_bid_size_bits,
        best_ask_price_bits,
        best_ask_size_bits,
    };
    LobPlan::Persist(LobRows { event_ts_nanos, snapshot, bids, asks })
}

} // verus!
