use cryptomeria_historic::items::{LobItem, LobLevel, TradeItem};
use cryptomeria_historic::lob::{BookSide, sort_side};
use cryptomeria_historic::persist::{
    LobPlan, checked_event_nanos, is_crossed, latency_nanos, plan_lob, plan_trade, wire_ts,
};

fn level(price: f64, size: f64) -> LobLevel {
    LobLevel { price_bits: price.to_bits(), size_bits: size.to_bits() }
}

fn prices(levels: &[LobLevel]) -> Vec<f64> {
    levels.iter().map(|l| f64::from_bits(l.price_bits)).collect()
}

fn sizes(levels: &[LobLevel]) -> Vec<f64> {
    levels.iter().map(|l| f64::from_bits(l.size_bits)).collect()
}

fn build_sample_lob() -> LobItem {
    LobItem {
        ts: 1786524350108,
        exchange: "okx".to_string(),
        bids: vec![
            level(63720.5, 0.15695879),
            level(63723.1, 0.13561901),
            level(63724.3, 0.03138991),
        ],
        asks: vec![
            level(63724.4, 0.0026),
            level(63725.0, 0.34837142),
            level(63725.2, 0.34523342),
        ],
    }
}

#[test]
fn lob_persistence_round_trip() {
    let lob = build_sample_lob();
    let rows = match plan_lob(&lob) {
        LobPlan::Persist(rows) => rows,
        LobPlan::Crossed { .. } => panic!("expected a valid book"),
    };
    let expected_ns = (lob.ts as i64) * 1_000_000;
    assert_eq!(rows.event_ts_nanos, expected_ns);
    assert_eq!(rows.snapshot.snapshot_id, expected_ns);
    assert_eq!(rows.snapshot.sequence, lob.ts as i64);
    assert_eq!(f64::from_bits(rows.snapshot.best_bid_price_bits), 63724.3);
    assert_eq!(f64::from_bits(rows.snapshot.best_bid_size_bits), 0.03138991);
    assert_eq!(f64::from_bits(rows.snapshot.best_ask_price_bits), 63724.4);
    assert_eq!(f64::from_bits(rows.snapshot.best_ask_size_bits), 0.0026);
    assert_eq!(prices(&rows.bids), vec![63724.3, 63723.1, 63720.5]);
    assert_eq!(prices(&rows.asks), vec![63724.4, 63725.0, 63725.2]);
    assert_eq!(sizes(&rows.bids), vec![0.03138991, 0.13561901, 0.15695879]);
    assert_eq!(sizes(&rows.asks), vec![0.0026, 0.34837142, 0.34523342]);
    assert_eq!(rows.bids.len() + rows.asks.len(), 6);
}

#[test]
fn lob_persistence_drops_invalid_crossed_book() {
    let lob = LobItem {
        ts: 1000,
        exchange: "okx".to_string(),
        bids: vec![level(100.0, 1.0)],
        asks: vec![level(90.0, 2.0)],
    };
    match plan_lob(&lob) {
        LobPlan::Crossed { best_bid, best_ask } => {
            assert_eq!(f64::from_bits(best_bid.price_bits), 100.0);
            assert_eq!(f64::from_bits(best_ask.price_bits), 90.0);
        }
        LobPlan::Persist(_) => panic!("crossed book must not be persisted"),
    }
}

#[test]
fn plan_lob_accepts_touching_book_and_empty_sides() {
    let touching = LobItem { ts: 1, exchange: "x".into(), bids: vec![level(5.0, 1.0)], asks: vec![level(5.0, 1.0)] };
    assert!(matches!(plan_lob(&touching), LobPlan::Persist(_)));
    let zeros = LobItem { ts: 1, exchange: "x".into(), bids: vec![level(0.0, 1.0)], asks: vec![level(-0.0, 1.0)] };
    assert!(matches!(plan_lob(&zeros), LobPlan::Persist(_)));
    let only_bids = LobItem { ts: 2, exchange: "x".into(), bids: vec![level(1.0, 3.0)], asks: vec![] };
    match plan_lob(&only_bids) {
        LobPlan::Persist(rows) => {
            assert_eq!(f64::from_bits(rows.snapshot.best_bid_price_bits), 1.0);
            assert_eq!(rows.snapshot.best_ask_price_bits, 0.0f64.to_bits());
            assert_eq!(rows.snapshot.best_ask_size_bits, 0.0f64.to_bits());
        }
        LobPlan::Crossed { .. } => panic!("one-sided book is valid"),
    }
}

#[test]
fn sort_side_is_stable_like_sort_by_total_cmp() {
    let raw = [3.0, 1.0, 3.0, -0.0, 0.0, f64::NAN, -2.5, f64::INFINITY, 1.0, -f64::NAN];
    let levels: Vec<LobLevel> = raw.iter().enumerate().map(|(i, p)| level(*p, i as f64)).collect();
    let mut asc = levels.clone();
    asc.sort_by(|a, b| f64::from_bits(a.price_bits).total_cmp(&f64::from_bits(b.price_bits)));
    assert_eq!(sort_side(&levels, BookSide::Ask), asc);
    let mut desc = levels.clone();
    desc.sort_by(|a, b| f64::from_bits(b.price_bits).total_cmp(&f64::from_bits(a.price_bits)));
    assert_eq!(sort_side(&levels, BookSide::Bid), desc);
}

#[test]
fn plan_trade_fills_defaults() {
    let mut t = TradeItem {
        ts: 456,
        exchange: "kraken".into(),
        price_bits: 100.0f64.to_bits(),
        size_bits: 1.5f64.to_bits(),
        side: "buy".into(),
        trade_id: Some("t1".to_string()),
        seq_id: Some(42),
    };
    let row = plan_trade(&t);
    assert_eq!(row.event_ts_nanos, 456_000_000);
    assert_eq!(row.trade_id, "t1");
    assert_eq!(row.seq_id, 42);
    t.trade_id = None;
    t.seq_id = Some(u64::MAX);
    let row = plan_trade(&t);
    assert_eq!(row.trade_id, "");
    assert_eq!(row.seq_id, -1);
    t.seq_id = None;
    assert_eq!(plan_trade(&t).seq_id, -1);
    t.seq_id = Some(i64::MAX as u64);
    assert_eq!(plan_trade(&t).seq_id, i64::MAX);
}

#[test]
fn event_nanos_follow_wrapping_cast_and_checked_multiply() {
    assert_eq!(wire_ts(u64::MAX), -1);
    assert_eq!(wire_ts(5), 5);
    assert_eq!(checked_event_nanos(u64::MAX), Some(-1_000_000));
    assert_eq!(checked_event_nanos(1786524350108), Some(1786524350108_000_000));
    assert_eq!(checked_event_nanos(i64::MAX as u64), None);
}

#[test]
fn crossed_book_is_reported_whatever_its_timestamp() {
    for ts in [i64::MAX as u64, 1u64 << 62, 1u64 << 63] {
        let lob = LobItem {
            ts,
            exchange: "okx".to_string(),
            bids: vec![level(101.0, 1.0), level(99.0, 2.0)],
            asks: vec![level(100.5, 1.0)],
        };
        assert!(checked_event_nanos(ts).is_none());
        assert!(is_crossed(&lob));
        match plan_lob(&lob) {
            LobPlan::Crossed { best_bid, best_ask } => {
                assert_eq!(f64::from_bits(best_bid.price_bits), 101.0);
                assert_eq!(f64::from_bits(best_ask.price_bits), 100.5);
            }
            LobPlan::Persist(_) => panic!("crossed book persisted"),
        }
    }
}

#[test]
fn is_crossed_compares_best_levels() {
    let mut lob = build_sample_lob();
    assert!(!is_crossed(&lob));
    lob.asks.push(level(63723.0, 1.0));
    assert!(is_crossed(&lob));
    // equal best prices are not crossed
    let touching = LobItem {
        ts: 1,
        exchange: "x".to_string(),
        bids: vec![level(10.0, 1.0)],
        asks: vec![level(10.0, 1.0)],
    };
    assert!(!is_crossed(&touching));
    let one_sided = LobItem { ts: 1, exchange: "x".to_string(), bids: vec![level(10.0, 1.0)], asks: vec![] };
    assert!(!is_crossed(&one_sided));
}

#[test]
fn latency_is_insertion_minus_event_time() {
    assert_eq!(latency_nanos(1_786_524_350_200_000_000, 1_786_524_350_108_000_000), Some(92_000_000));
    assert_eq!(latency_nanos(5, 9), Some(-4));
    assert_eq!(latency_nanos(i64::MAX, -1), None);
    assert_eq!(latency_nanos(i64::MIN, 1), None);
}
