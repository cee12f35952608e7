use rebalancer::broker::kraken::{
    deserialize_data, deserialize_order, KrakenOHLCData, KrakenOpenOrders, KrakenOrderData,
    KrakenOrderDataDescr, KrakenPublicData, KrakenPublicMessage, KrakenSequence,
    KrakenTradeData,
};
use rebalancer::decimal::parse_fixed;
use rebalancer::schema::{MarketData, OrderSide, OrderStatus};

fn ohlc(close: &str) -> KrakenPublicMessage {
    KrakenPublicMessage {
        channel_id: 1,
        data: KrakenPublicData::OHLC(KrakenOHLCData {
            time: "1700000000.1".to_string(),
            etime: "1700000005.0".to_string(),
            open: "1999.0".to_string(),
            high: "2001.0".to_string(),
            low: "1998.0".to_string(),
            close: close.to_string(),
            vwap: "2000.1".to_string(),
            volume: "12.5".to_string(),
            count: 3,
        }),
        channel_name: "ohlc-5".to_string(),
        pair: "ETH/USD".to_string(),
    }
}

#[test]
fn ohlc_frame_parses_to_fixed_point() {
    let out = deserialize_data(ohlc("2000.5")).unwrap();
    assert_eq!(out.len(), 1);
    match &out[0] {
        MarketData::OHLC(d) => {
            assert_eq!(d.pair, "ETH/USD");
            assert_eq!(d.open, parse_fixed("1999.0").unwrap());
            assert_eq!(d.close, parse_fixed("2000.5").unwrap());
            assert_eq!(d.volume, parse_fixed("12.5").unwrap());
            assert_eq!(d.time, "1700000000.1");
        },
        _ => panic!("expected an OHLC event"),
    }
}

#[test]
fn malformed_ohlc_frame_is_rejected_whole() {
    assert!(deserialize_data(ohlc("not-a-number")).is_none());
}

#[test]
fn trade_frames_parse_in_order() {
    let trade = |p: &str, v: &str| KrakenTradeData {
        price: p.to_string(),
        volume: v.to_string(),
        time: "1700000000.2".to_string(),
        side: "b".to_string(),
        order_type: "l".to_string(),
        misc: String::new(),
    };
    let msg = KrakenPublicMessage {
        channel_id: 1,
        data: KrakenPublicData::Trade(vec![trade("2000.5", "0.1"), trade("2001.0", "0.2")]),
        channel_name: "trade".to_string(),
        pair: "ETH/USD".to_string(),
    };
    let out = deserialize_data(msg).unwrap();
    assert_eq!(out.len(), 2);
    match &out[1] {
        MarketData::Trade(d) => {
            assert_eq!(d.pair, "ETH/USD");
            assert_eq!(d.price, parse_fixed("2001.0").unwrap());
            assert_eq!(d.volume, parse_fixed("0.2").unwrap());
        },
        _ => panic!("expected a trade event"),
    }
}

#[test]
fn open_orders_keep_only_parsable_open_entries() {
    let open_entry = |id: &str, price: &str, vol: &str| {
        (
            id.to_string(),
            KrakenOrderData {
                status: "open".to_string(),
                descr: Some(KrakenOrderDataDescr {
                    pair: "ETH/USD".to_string(),
                    _type: "buy".to_string(),
                    ordertype: "limit".to_string(),
                    price: price.to_string(),
                    price2: String::new(),
                    order: String::new(),
                }),
                vol: Some(vol.to_string()),
                vol_exec: None,
                cost: None,
                fee: None,
                avg_price: None,
            },
        )
    };
    let closed_entry = (
        "OC-1".to_string(),
        KrakenOrderData {
            status: "closed".to_string(),
            descr: None,
            vol: None,
            vol_exec: None,
            cost: None,
            fee: None,
            avg_price: None,
        },
    );
    let msg = KrakenOpenOrders {
        orders: vec![
            vec![open_entry("OO-1", "1990.0", "0.5"), closed_entry],
            vec![open_entry("OO-2", "bad", "0.5")],
        ],
        channel_name: "openOrders".to_string(),
        sequence: KrakenSequence { sequence: 7 },
    };
    let out = deserialize_order(msg);
    assert_eq!(out.len(), 1);
    match &out[0] {
        OrderStatus::Opened(o) => {
            assert_eq!(o.id, "OO-1");
            assert_eq!(o.asset, "ETH/USD");
            assert_eq!(o.price, parse_fixed("1990.0").unwrap());
            assert_eq!(o.volume, parse_fixed("0.5").unwrap());
            assert!(matches!(o.side, OrderSide::BUY));
            assert_eq!(o.status, "open");
        },
        _ => panic!("expected an opened event"),
    }
}
