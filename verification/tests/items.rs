use cryptomeria_historic::items::{LobItem, MarketDataItem, TradeItem, item_kind};

#[test]
fn timestamp_ms_works_for_both_variants() {
    let lob = MarketDataItem::Lob(LobItem {
        ts: 100,
        exchange: "x".into(),
        bids: vec![],
        asks: vec![],
    });
    let trade = MarketDataItem::Trade(TradeItem {
        ts: 200,
        exchange: "x".into(),
        price_bits: 0.0f64.to_bits(),
        size_bits: 0.0f64.to_bits(),
        side: "buy".into(),
        trade_id: None,
        seq_id: None,
    });
    assert_eq!(lob.timestamp_ms(), 100);
    assert_eq!(trade.timestamp_ms(), 200);
}

#[test]
fn item_kind_classifies_variants() {
    let lob = MarketDataItem::Lob(LobItem {
        ts: 0,
        exchange: String::new(),
        bids: vec![],
        asks: vec![],
    });
    let trade = MarketDataItem::Trade(TradeItem {
        ts: 0,
        exchange: String::new(),
        price_bits: 0.0f64.to_bits(),
        size_bits: 0.0f64.to_bits(),
        side: String::new(),
        trade_id: None,
        seq_id: None,
    });
    assert_eq!(item_kind(&lob), "lob");
    assert_eq!(item_kind(&trade), "trade");
}
