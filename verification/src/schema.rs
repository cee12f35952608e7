//! Typed market and order data, fixed-point throughout.

use vstd::prelude::*;

verus! {

/// Which side of the book an order stands on.
#[derive(PartialEq, Eq, Structural, Clone, Copy, Debug)]
pub enum OrderSide {
    BUY,
    SELL,
}

impl OrderSide {
    /// The wire word for the side.
    pub fn as_str(&self) -> (r: &'static str)
        ensures
            *self == OrderSide::BUY ==> r@ == "buy"@,
            *self == OrderSide::SELL ==> r@ == "sell"@,
    {
        match *self {
            OrderSide::BUY => "buy",
            OrderSide::SELL => "sell",
        }
    }
}

/// A market-data event, already parsed to fixed-point numbers.
pub enum MarketData {
    OHLC(OHLCData),
    Trade(TradeData),
}

/// A best-quote snapshot.
pub struct TickerData {
    pub ask_price: u64,
    pub ask_volume: u64,
    pub bid_price: u64,
    pub bid_volume: u64,
}

/// One OHLC candle.
pub struct OHLCData {
    pub pair: String,
    pub open: u64,
    pub high: u64,
    pub low: u64,
    pub close: u64,
    pub volume: u64,
    pub time: String,
}

/// One public trade print.
pub struct TradeData {
    pub pair: String,
    pub price: u64,
    pub volume: u64,
    pub time: String,
}

/// One order-book level.
pub struct OrderData {
    pub price: u64,
    pub volume: u64,
}

/// A depth snapshot.
pub struct OrderBookData {
    pub asks: Vec<OrderData>,
    pub bids: Vec<OrderData>,
}

/// A limit order as submitted.
pub struct LimitOrder {
    pub id: String,
    pub asset: String,
    pub volume: u64,
    pub price: u64,
    pub side: OrderSide,
    pub time: String,
}

/// An order-lifecycle event.
pub enum OrderStatus {
    Opened(OrderOpened),
    Filled(OrderFilled),
    Cancelled(OrderCancelled),
}

/// An order acknowledged as resting by the exchange.
pub struct OrderOpened {
    pub id: String,
    pub asset: String,
    pub volume: u64,
    pub price: u64,
    pub status: String,
    pub side: OrderSide,
    pub time: String,
}

/// An order reported fully filled.
pub struct OrderFilled {
    pub id: String,
}

/// An order reported cancelled.
pub struct OrderCancelled {
    pub id: String,
}

} // verus!
