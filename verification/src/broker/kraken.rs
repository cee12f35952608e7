//! The exchange's own message shapes and their conversion to typed data.

use vstd::prelude::*;

verus! {

use crate::decimal::{parse_fixed, spec_parse_fixed, valid_decimal};
use crate::schema::{MarketData, OHLCData, OrderOpened, OrderSide, OrderStatus, TradeData};

/// A best-quote frame as the exchange sends it.
pub struct KrakenTickerData {
    pub a: Vec<String>,
    pub b: Vec<String>,
    pub v: Vec<String>,
}

/// An OHLC frame, every number a decimal string.
pub struct KrakenOHLCData {
    pub time: String,
    pub etime: String,
    pub open: String,
    pub high: String,
    pub low: String,
    pub close: String,
    pub vwap: String,
    pub volume: String,
    pub count: i64,
}

/// One public trade print.
pub struct KrakenTradeData {
    pub price: String,
    pub volume: String,
    pub time: String,
    pub side: String,
    pub order_type: String,
    pub misc: String,
}

/// Payload of a public frame.
pub enum KrakenPublicData {
    OHLC(KrakenOHLCData),
    Trade(Vec<KrakenTradeData>),
}

/// A public frame with its channel envelope.
pub struct KrakenPublicMessage {
    pub channel_id: i64,
    pub data: KrakenPublicData,
    pub channel_name: String,
    pub pair: String,
}

/// The order description of an open-orders frame.
pub struct KrakenOrderDataDescr {
    pub pair: String,
    pub _type: String,
    pub ordertype: String,
    pub price: String,
    pub price2: String,
    pub order: String,
}

/// One order's reported state.
pub struct KrakenOrderData {
    pub status: String,
    pub descr: Option<KrakenOrderDataDescr>,
    pub vol: Option<String>,
    pub vol_exec: Option<String>,
    pub cost: Option<String>,
    pub fee: Option<String>,
    pub avg_price: Option<String>,
}

/// The private stream's sequence stamp.
pub struct KrakenSequence {
    pub sequence: i64,
}

/// A batched open-orders frame.
pub struct KrakenOpenOrders {
    pub orders: Vec<Vec<(String, KrakenOrderData)>>,
    pub channel_name: String,
    pub sequence: KrakenSequence,
}

/// Marker for the live venue.
pub struct KrakenStatic {}

impl KrakenStatic {
    pub fn new() -> (r: KrakenStatic) {
        KrakenStatic {  }
    }
}

/// Whether every number of an OHLC frame parses within the fixed-point
/// range.
pub open spec fn spec_ohlc_ok(o: KrakenOHLCData) -> bool {
    &&& valid_decimal(o.open@) && spec_parse_fixed(o.open@) <= u64::MAX
    &&& valid_decimal(o.high@) && spec_parse_fixed(o.high@) <= u64::MAX
    &&& valid_decimal(o.low@) && spec_parse_fixed(o.low@) <= u64::MAX
    &&& valid_decimal(o.close@) && spec_parse_fixed(o.close@) <= u64::MAX
    &&& valid_decimal(o.volume@) && spec_parse_fixed(o.volume@) <= u64::MAX
}

/// Whether one trade print parses within the fixed-point range.
pub open spec fn spec_trade_ok(t: KrakenTradeData) -> bool {
    &&& valid_decimal(t.price@) && spec_parse_fixed(t.price@) <= u64::MAX
    &&& valid_decimal(t.volume@) && spec_parse_fixed(t.volume@) <= u64::MAX
}

/// The OHLC payload of a public frame, where it carries one.
pub open spec fn spec_data_ohlc(d: KrakenPublicData) -> KrakenOHLCData {
    match d {
        KrakenPublicData::OHLC(o) => o,
        KrakenPublicData::Trade(_) => arbitrary(),
    }
}

/// The trade payload of a public frame, where it carries one.
pub open spec fn spec_data_trades(d: KrakenPublicData) -> Seq<KrakenTradeData> {
    match d {
        KrakenPublicData::OHLC(_) => arbitrary(),
        KrakenPublicData::Trade(ts) => ts@,
    }
}

/// One malformed trade refutes a frame's validity.
proof fn lemma_bad_trade_witness(d: KrakenPublicData, ts: Vec<KrakenTradeData>, i: int)
    requires
        d == KrakenPublicData::Trade(ts),
        0 <= i < ts@.len(),
        !spec_trade_ok(ts@[i]),
    ensures
        !(forall|j: int|
            0 <= j < spec_data_trades(d).len() ==> spec_trade_ok(#[trigger] spec_data_trades(d)[j])),
{
    assert(spec_data_trades(d)[i] == ts@[i]);
}

/// Converts a public frame into typed market data; a frame with any
/// malformed number is rejected whole, so a caller can skip it and go on.
pub fn deserialize_data(msg: KrakenPublicMessage) -> (r: Option<Vec<MarketData>>)
    ensures
        (msg.data is OHLC ==> {
            let o = spec_data_ohlc(msg.data);
            &&& (r.is_some() <==> spec_ohlc_ok(o))
            &&& r.is_some() ==> {
                &&& r.unwrap()@.len() == 1
                &&& (r.unwrap()@[0] matches MarketData::OHLC(d) && d.pair@ == msg.pair@
                    && d.open as int == spec_parse_fixed(o.open@) && d.high as int
                    == spec_parse_fixed(o.high@) && d.low as int == spec_parse_fixed(o.low@)
                    && d.close as int == spec_parse_fixed(o.close@) && d.volume as int
                    == spec_parse_fixed(o.volume@) && d.time@ == o.time@)
            }
        }),
        (msg.data is Trade ==> {
            let ts = spec_data_trades(msg.data);
            &&& (r.is_some() <==> (forall|i: int|
                0 <= i < ts.len() ==> spec_trade_ok(#[trigger] ts[i])))
            &&& r.is_some() ==> {
                &&& r.unwrap()@.len() == ts.len()
                &&& (forall|i: int|
                    0 <= i < ts.len() ==> ((#[trigger] r.unwrap()@[i])
                        matches MarketData::Trade(d) && d.pair@ == msg.pair@
                        && d.price as int == spec_parse_fixed(ts[i].price@)
                        && d.volume as int == spec_parse_fixed(ts[i].volume@) && d.time@
                        == ts[i].time@))
            }
        }),
{
    match &msg.data {
        KrakenPublicData::OHLC(o) => {
            proof {
                assert(msg.data == KrakenPublicData::OHLC(*o));
            }
            let open = match parse_fixed(o.open.as_str()) {
                Some(v) => v,
                None => {
                    return None;
                },
            };
            let high = match parse_fixed(o.high.as_str()) {
                Some(v) => v,
                None => {
                    return None;
                },
            };
            let low = match parse_fixed(o.low.as_str()) {
                Some(v) => v,
                None => {
                    return None;
                },
            };
            let close = match parse_fixed(o.close.as_str()) {
                Some(v) => v,
                None => {
                    return None;
                },
            };
            let volume = match parse_fixed(o.volume.as_str()) {
                Some(v) => v,
                None => {
                    return None;
                },
            };
            let mut out: Vec<MarketData> = Vec::new();
            out.push(
                MarketData::OHLC(
                    OHLCData {
                        pair: msg.pair.clone(),
                        open,
                        high,
                        low,
                        close,
                        volume,
                        time: o.time.clone(),
                    },
                ),
            );
            Some(out)
        },
        KrakenPublicData::Trade(ts) => {
            proof {
                assert(msg.data == KrakenPublicData::Trade(*ts));
            }
            let mut out: Vec<MarketData> = Vec::new();
            let n = ts.len();
            let mut i: usize = 0;
            while i < n
                invariant
                    msg.data == KrakenPublicData::Trade(*ts),
                    n == ts@.len(),
                    0 <= i <= n,
                    out@.len() == i,
                    forall|j: int| 0 <= j < i ==> spec_trade_ok(#[trigger] ts@[j]),
                    forall|j: int|
                        0 <= j < i ==> ((#[trigger] out@[j]) matches MarketData::Trade(d)
                            && d.pair@ == msg.pair@ && d.price as int == spec_parse_fixed(
                            ts@[j].price@,
                        ) && d.volume as int == spec_parse_fixed(ts@[j].volume@) && d.time@
                            == ts@[j].time@),
                decreases n - i,
            {
                let price = match parse_fixed(ts[i].price.as_str()) {
                    Some(v) => v,
                    None => {
                        proof {
                            lemma_bad_trade_witness(msg.data, *ts, i as int);
                        }
                        return None;
                    },
                };
                let volume = match parse_fixed(ts[i].volume.as_str()) {
                    Some(v) => v,
                    None => {
                        proof {
                            lemma_bad_trade_witness(msg.data, *ts, i as int);
                        }
                        return None;
                    },
                };
                out.push(
                    MarketData::Trade(
                        TradeData {
                            pair: msg.pair.clone(),
                            price,
                            volume,
                            time: ts[i].time.clone(),
                        },
                    ),
                );
                i += 1;
            }
            Some(out)
        },
    }
}

/// Whether an order entry yields an opened-order event: reported open,
/// with a descriptor and parsable volume and price.
pub open spec fn spec_order_entry_ok(od: KrakenOrderData) -> bool {
    &&& od.status@ == "open"@
    &&& od.descr is Some
    &&& od.vol is Some
    &&& valid_decimal(od.vol.unwrap()@)
    &&& spec_parse_fixed(od.vol.unwrap()@) <= u64::MAX
    &&& valid_decimal(od.descr.unwrap().price@)
    &&& spec_parse_fixed(od.descr.unwrap().price@) <= u64::MAX
}

/// The (id, pair, volume, price) views of the kept entries of one batch,
/// in order.
pub open spec fn spec_kept_batch(b: Seq<(String, KrakenOrderData)>) -> Seq<
    (Seq<char>, Seq<char>, int, int),
>
    decreases b.len(),
{
    if b.len() == 0 {
        Seq::empty()
    } else {
        spec_kept_batch(b.drop_last()) + (if spec_order_entry_ok(b.last().1) {
            seq![
                (
                    b.last().0@,
                    b.last().1.descr.unwrap().pair@,
                    spec_parse_fixed(b.last().1.vol.unwrap()@),
                    spec_parse_fixed(b.last().1.descr.unwrap().price@),
                ),
            ]
        } else {
            Seq::empty()
        })
    }
}

/// The kept entries of all batches, in delivery order.
pub open spec fn spec_kept_orders(bs: Seq<Vec<(String, KrakenOrderData)>>) -> Seq<
    (Seq<char>, Seq<char>, int, int),
>
    decreases bs.len(),
{
    if bs.len() == 0 {
        Seq::empty()
    } else {
        spec_kept_orders(bs.drop_last()) + spec_kept_batch(bs.last()@)
    }
}

/// Converts an open-orders frame into opened-order events, skipping
/// entries that are not open or do not parse; every kept event is buy-side
/// as the feed reports no side here.
pub fn deserialize_order(msg: KrakenOpenOrders) -> (r: Vec<OrderStatus>)
    ensures
        r@.len() == spec_kept_orders(msg.orders@).len(),
        forall|i: int|
            0 <= i < r@.len() ==> ((#[trigger] r@[i]) matches OrderStatus::Opened(o) && o.id@
                == spec_kept_orders(msg.orders@)[i].0 && o.asset@ == spec_kept_orders(
                msg.orders@,
            )[i].1 && o.volume as int == spec_kept_orders(msg.orders@)[i].2 && o.price as int
                == spec_kept_orders(msg.orders@)[i].3 && o.side == OrderSide::BUY && o.status@
                == "open"@ && o.time@ == Seq::<char>::empty()),
{
    let mut out: Vec<OrderStatus> = Vec::new();
    let nb = msg.orders.len();
    let mut b: usize = 0;
    proof {
        assert(msg.orders@.take(0) =~= Seq::<Vec<(String, KrakenOrderData)>>::empty());
    }
    while b < nb
        invariant
            nb == msg.orders@.len(),
            0 <= b <= nb,
            out@.len() == spec_kept_orders(msg.orders@.take(b as int)).len(),
            forall|i: int|
                0 <= i < out@.len() ==> ((#[trigger] out@[i]) matches OrderStatus::Opened(o)
                    && o.id@ == spec_kept_orders(msg.orders@.take(b as int))[i].0 && o.asset@
                    == spec_kept_orders(msg.orders@.take(b as int))[i].1 && o.volume as int
                    == spec_kept_orders(msg.orders@.take(b as int))[i].2 && o.price as int
                    == spec_kept_orders(msg.orders@.take(b as int))[i].3 && o.side
                    == OrderSide::BUY && o.status@ == "open"@ && o.time@ == Seq::<
                    char,
                >::empty()),
        decreases nb - b,
    {
        proof {
            assert(msg.orders@.take(b + 1).drop_last() =~= msg.orders@.take(b as int));
            assert(msg.orders@.take(b + 1).last() == msg.orders@[b as int]);
        }
        let ghost batch_prefix = spec_kept_orders(msg.orders@.take(b as int));
        let ne = msg.orders[b].len();
        let mut e: usize = 0;
        proof {
            assert(msg.orders@[b as int]@.take(0) =~= Seq::<(String, KrakenOrderData)>::empty());
        }
        while e < ne
            invariant
                nb == msg.orders@.len(),
                0 <= b < nb,
                ne == msg.orders@[b as int]@.len(),
                0 <= e <= ne,
                batch_prefix == spec_kept_orders(msg.orders@.take(b as int)),
                out@.len() == batch_prefix.len() + spec_kept_batch(
                    msg.orders@[b as int]@.take(e as int),
                ).len(),
                forall|i: int|
                    0 <= i < out@.len() ==> ((#[trigger] out@[i])
                        matches OrderStatus::Opened(o) && o.id@ == (batch_prefix
                        + spec_kept_batch(msg.orders@[b as int]@.take(e as int)))[i].0
                        && o.asset@ == (batch_prefix + spec_kept_batch(
                        msg.orders@[b as int]@.take(e as int),
                    ))[i].1 && o.volume as int == (batch_prefix + spec_kept_batch(
                        msg.orders@[b as int]@.take(e as int),
                    ))[i].2 && o.price as int == (batch_prefix + spec_kept_batch(
                        msg.orders@[b as int]@.take(e as int),
                    ))[i].3 && o.side == OrderSide::BUY && o.status@ == "open"@ && o.time@
                        == Seq::<char>::empty()),
            decreases ne - e,
        {
            proof {
                assert(msg.orders@[b as int]@.take(e + 1).drop_last()
                    =~= msg.orders@[b as int]@.take(e as int));
                assert(msg.orders@[b as int]@.take(e + 1).last()
                    == msg.orders@[b as int]@[e as int]);
            }
            let entry = &msg.orders[b][e];
            let keep = entry.1.status == "open".to_owned() && entry.1.descr.is_some()
                && entry.1.vol.is_some();
            if keep {
                let vol = match parse_fixed(entry.1.vol.as_ref().unwrap().as_str()) {
                    Some(v) => Some(v),
                    None => None,
                };
                let price = match parse_fixed(
                    entry.1.descr.as_ref().unwrap().price.as_str(),
                ) {
                    Some(v) => Some(v),
                    None => None,
                };
                match (vol, price) {
                    (Some(volume), Some(p)) => {
                        out.push(
                            OrderStatus::Opened(
                                OrderOpened {
                                    id: entry.0.clone(),
                                    asset: entry.1.descr.as_ref().unwrap().pair.clone(),
                                    volume,
                                    price: p,
                                    status: "open".to_owned(),
                                    side: OrderSide::BUY,
                                    time: String::new(),
                                },
                            ),
                        );
                    },
                    _ => {},
                }
            }
            e += 1;
        }
        proof {
            assert(msg.orders@[b as int]@.take(ne as int) =~= msg.orders@[b as int]@);
        }
        b += 1;
    }
    proof {
        assert(msg.orders@.take(nb as int) =~= msg.orders@);
    }
    out
}

} // verus!
