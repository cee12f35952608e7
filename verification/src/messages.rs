//! Stream payloads as plain data: what the sockets carry, after the JSON
//! framing has been stripped and before any number is parsed.

use vstd::prelude::*;

verus! {

/// A best-quote message: best ask, best bid and volume entries, each a
/// decimal string.
pub struct TickerData {
    pub a: Vec<String>,
    pub b: Vec<String>,
    pub v: Vec<String>,
}

/// Payload of a public-channel message.
pub enum PublicData {
    Ticker(TickerData),
    /// An OHLC array: time, end time, open, high, low, close, vwap,
    /// volume as decimal strings.
    OHLC(Vec<String>),
}

/// A public-channel message.
pub struct PublicMessage {
    pub channel_id: i64,
    pub data: PublicData,
    pub channel_name: String,
    pub pair: String,
}

/// The order description carried by an open-orders event.
pub struct OrderDataDescr {
    pub pair: String,
    pub _type: String,
    pub ordertype: String,
    pub price: String,
    pub price2: String,
    pub order: String,
}

/// One order's reported state; the descriptor is absent on some
/// transitions.
pub struct OrderData {
    pub status: String,
    pub descr: Option<OrderDataDescr>,
    pub vol: Option<String>,
    pub vol_exec: Option<String>,
    pub cost: Option<String>,
    pub fee: Option<String>,
    pub avg_price: Option<String>,
}

/// The private stream's sequence stamp.
pub struct Sequence {
    pub sequence: i64,
}

/// A batched open-orders event: lists of (order id, state) pairs.
pub struct OpenOrders {
    pub orders: Vec<Vec<(String, OrderData)>>,
    pub channel_name: String,
    pub sequence: Sequence,
}

/// The exchange's status announcement.
pub struct SystemStatus {
    pub event: String,
    pub status: String,
    pub version: String,
}

/// Acknowledgement of a subscription request.
pub struct SubscriptionStatus {
    pub channel_name: String,
    pub event: String,
    pub pair: Option<String>,
    pub status: String,
    pub subscription: Vec<(String, String)>,
}

/// The keepalive frame; filtered before the engine sees it.
pub struct Heartbeat {
    pub event: String,
}

/// Any inbound frame of either stream.
pub enum WSPayload {
    PublicMessage(PublicMessage),
    OpenOrders(OpenOrders),
    SystemStatus(SystemStatus),
    SubscriptionStatus(SubscriptionStatus),
    Heartbeat(Heartbeat),
}

} // verus!
