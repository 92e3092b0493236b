//! cryptomeria-historic: the verified core of an NNG PUB/SUB subscriber that
//! forwards normalised LOB and trade market data to QuestDB.
//!
//! Messages arrive as `{topic}\0{json-payload}` frames; topics are classified
//! as `lob__{instrument}` or `trade__{instrument}`; LOB events and trades are
//! turned into rows for the `lob_snapshots`, `lob_levels` and `trades` tables,
//! whose schema is kept by embedded, versioned migrations.

pub mod db;
pub mod forward;
pub mod forwarder;
pub mod items;
pub mod lob;
pub mod migrate;
pub mod persist;
pub mod price;
pub mod subscriber;
pub mod text;
pub mod topics;

pub use forward::{FRAME_SEPARATOR, frame_message, split_frame};
pub use forwarder::parse_nng_addrs;
pub use items::{LobItem, LobLevel, MarketDataItem, TradeItem};
pub use subscriber::{ConnEvent, connectivity_event};
pub use topics::{LOB_TOPIC_PREFIX, TRADE_TOPIC_PREFIX, classify_topic, extract_topic_segment};
