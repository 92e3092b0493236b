use cryptomeria_historic::topics::{
    LOB_TOPIC_PREFIX, TRADE_TOPIC_PREFIX, classify_topic, extract_topic_segment,
};

#[test]
fn topics_classifies_lob_topic() {
    assert_eq!(classify_topic("lob__btcusdt"), Some(("lob", "btcusdt")));
}

#[test]
fn topics_classifies_trade_topic() {
    assert_eq!(classify_topic("trade__btcusd"), Some(("trade", "btcusd")));
}

#[test]
fn topics_returns_none_for_unknown_prefix() {
    assert_eq!(classify_topic("foo__bar"), None);
}

#[test]
fn topics_returns_none_for_empty_instrument() {
    assert_eq!(classify_topic("lob__"), None);
}

#[test]
fn subscriber_classifies_lob_topic() {
    assert_eq!(
        cryptomeria_historic::subscriber::classify_topic("lob__btcusdt"),
        Some(("lob", "btcusdt"))
    );
}

#[test]
fn subscriber_classifies_trade_topic() {
    assert_eq!(
        cryptomeria_historic::subscriber::classify_topic("trade__btcusd"),
        Some(("trade", "btcusd"))
    );
}

#[test]
fn subscriber_returns_none_for_unknown_prefix() {
    assert_eq!(cryptomeria_historic::subscriber::classify_topic("foo__bar"), None);
}

#[test]
fn subscriber_returns_none_for_empty_instrument() {
    assert_eq!(cryptomeria_historic::subscriber::classify_topic("lob__"), None);
}

#[test]
fn extract_topic_segment_lob() {
    assert_eq!(
        extract_topic_segment("lob__btcusdt"),
        Some(("lob", "btcusdt"))
    );
}

#[test]
fn extract_topic_segment_trade() {
    assert_eq!(
        extract_topic_segment("trade__btcusd"),
        Some(("trade", "btcusd"))
    );
}

#[test]
fn extract_topic_segment_returns_none_without_delimiter() {
    assert_eq!(extract_topic_segment("just-a-topic"), None);
}

#[test]
fn extract_topic_segment_returns_none_for_empty_instrument() {
    assert_eq!(extract_topic_segment("lob__"), None);
}

#[test]
fn topic_prefixes() {
    assert_eq!(LOB_TOPIC_PREFIX, "lob__");
    assert_eq!(TRADE_TOPIC_PREFIX, "trade__");
}

#[test]
fn classify_keeps_underscores_inside_instrument() {
    assert_eq!(classify_topic("lob___x__y"), Some(("lob", "_x__y")));
    assert_eq!(classify_topic("trade__"), None);
    assert_eq!(classify_topic("lob_x"), None);
    assert_eq!(classify_topic(""), None);
    assert_eq!(classify_topic("LOB__x"), None);
}

#[test]
fn classify_handles_non_ascii_instrument() {
    assert_eq!(classify_topic("trade__€ur"), Some(("trade", "€ur")));
}

#[test]
fn extract_splits_at_first_delimiter() {
    assert_eq!(extract_topic_segment("a__b__c"), Some(("a", "b__c")));
    assert_eq!(extract_topic_segment("__x"), None);
    assert_eq!(extract_topic_segment("a___b"), Some(("a", "_b")));
    assert_eq!(extract_topic_segment("ß__€"), Some(("ß", "€")));
    assert_eq!(extract_topic_segment(""), None);
    assert_eq!(extract_topic_segment("_"), None);
}

#[test]
fn classify_agrees_with_extract_when_it_succeeds() {
    for t in ["lob__btcusdt", "trade__x__y", "lob___z", "trade__ä"] {
        assert_eq!(classify_topic(t), extract_topic_segment(t));
    }
}
