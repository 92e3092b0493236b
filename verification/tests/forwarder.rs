use cryptomeria_historic::forwarder::{
    MessageRoute, RECV_TIMEOUT_WARN_INTERVAL_SECS, is_white_space, parse_nng_addrs,
    route_message, silence_warning_due,
};
use cryptomeria_historic::items::{LobItem, MarketDataItem, TradeItem};

#[test]
fn parse_nng_addrs_single() {
    let result = parse_nng_addrs("tcp://127.0.0.1:14242");
    assert_eq!(result, vec!["tcp://127.0.0.1:14242".to_string()]);
}

#[test]
fn parse_nng_addrs_multiple() {
    let result = parse_nng_addrs("tcp://1.2.3.4:14242,tcp://5.6.7.8:14242");
    assert_eq!(
        result,
        vec![
            "tcp://1.2.3.4:14242".to_string(),
            "tcp://5.6.7.8:14242".to_string(),
        ]
    );
}

#[test]
fn parse_nng_addrs_trims_whitespace_and_drops_empty() {
    let result = parse_nng_addrs(" tcp://a:1 , , tcp://b:2 ");
    assert_eq!(
        result,
        vec!["tcp://a:1".to_string(), "tcp://b:2".to_string(),]
    );
}

fn split_trim(s: &str) -> Vec<String> {
    s.split(',').map(str::trim).filter(|p| !p.is_empty()).map(String::from).collect()
}

#[test]
fn parse_nng_addrs_matches_split_trim_filter() {
    for s in [
        "",
        ",",
        ",,a,,",
        "\u{3000}x\u{a0},\ty\n",
        "a b, c ",
        "\u{85}z\u{2028}",
        "€,ß , ,",
    ] {
        assert_eq!(parse_nng_addrs(s), split_trim(s));
    }
}

fn lob() -> MarketDataItem {
    MarketDataItem::Lob(LobItem { ts: 1, exchange: "okx".into(), bids: vec![], asks: vec![] })
}

fn trade() -> MarketDataItem {
    MarketDataItem::Trade(TradeItem {
        ts: 1,
        exchange: "okx".into(),
        price_bits: 1.0f64.to_bits(),
        size_bits: 2.0f64.to_bits(),
        side: "buy".into(),
        trade_id: None,
        seq_id: None,
    })
}

#[test]
fn route_message_by_topic_and_kind() {
    assert_eq!(route_message("lob__btcusdt", &lob()), MessageRoute::Lob("btcusdt"));
    assert_eq!(route_message("trade__btcusd", &trade()), MessageRoute::Trade("btcusd"));
    assert_eq!(route_message("trade__btcusd", &lob()), MessageRoute::KindMismatch);
    assert_eq!(route_message("lob__btcusd", &trade()), MessageRoute::KindMismatch);
    assert_eq!(route_message("foo__bar", &lob()), MessageRoute::UnrecognisedTopic);
    assert_eq!(route_message("lob__", &lob()), MessageRoute::UnrecognisedTopic);
}

#[test]
fn silence_warning_after_five_seconds() {
    assert_eq!(RECV_TIMEOUT_WARN_INTERVAL_SECS, 5);
    assert!(!silence_warning_due(4));
    assert!(silence_warning_due(5));
    assert!(silence_warning_due(60));
}

#[test]
fn is_white_space_agrees_with_char_is_whitespace() {
    for n in 0..=0x10FFFFu32 {
        if let Some(c) = char::from_u32(n) {
            assert_eq!(is_white_space(c), c.is_whitespace(), "U+{n:04X}");
        }
    }
}

#[test]
fn parse_nng_addrs_trims_unicode_white_space() {
    let result = parse_nng_addrs("\u{3000}tcp://a:1\u{2003},\u{85}\t, tcp://b:2\u{a0}");
    assert_eq!(result, vec!["tcp://a:1".to_string(), "tcp://b:2".to_string()]);
}
