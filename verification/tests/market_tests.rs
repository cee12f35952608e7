use rebalancer::decimal::{parse_fixed, SCALE};
use rebalancer::market::{Market, MarketConfig, OrderCommand, RestingOrder};
use rebalancer::messages::{
    Heartbeat, OpenOrders, OrderData, OrderDataDescr, PublicData, PublicMessage, Sequence,
    TickerData, WSPayload,
};
use rebalancer::portfolio::Portfolio;
use rebalancer::schema::OrderSide;

fn usd(amount_whole: i64) -> i64 {
    amount_whole * SCALE as i64
}

fn config() -> MarketConfig {
    MarketConfig {
        price_record_interval_s: 10,
        order_size_quote: 30 * SCALE,
        risk_aversion: 15,
        base_volatility_fp: 50_000,
        liquidity_term_fp: 13_118,
        min_spread_fp: 480_000,
        order_cooldown_s: 300,
        similar_tol_num: 5,
        similar_tol_den: 10_000,
        price_update_num: 3,
        price_update_den: 4,
    }
}

fn underweight_portfolio() -> Portfolio {
    let mut p = Portfolio::new();
    p.set_asset("ZUSD".to_string(), usd(1000), SCALE as i64);
    p.set_asset("ETH".to_string(), 0, usd(2000));
    p
}

fn market() -> Market {
    Market::new("ETH/USD".to_string(), config())
}

fn open_event(pair: &str, side: &str, price: &str, vol: &str) -> OrderData {
    OrderData {
        status: "open".to_string(),
        descr: Some(OrderDataDescr {
            pair: pair.to_string(),
            _type: side.to_string(),
            ordertype: "limit".to_string(),
            price: price.to_string(),
            price2: String::new(),
            order: String::new(),
        }),
        vol: Some(vol.to_string()),
        vol_exec: None,
        cost: None,
        fee: None,
        avg_price: None,
    }
}

fn bare_event(status: &str) -> OrderData {
    OrderData {
        status: status.to_string(),
        descr: None,
        vol: None,
        vol_exec: None,
        cost: None,
        fee: None,
        avg_price: None,
    }
}

// An open event followed by a closed event for the same id leaves the bid
// map empty, adds the volume to the base asset and debits volume times
// price from the quote currency.
#[test]
fn open_then_close_applies_the_fill_once() {
    let mut m = market();
    let mut p = underweight_portfolio();
    let id = "OABC-1".to_string();

    m.apply_order_event(&mut p, &id, &open_event("ETH/USD", "buy", "100", "1.0"));
    assert!(m.cancel_orders().is_some());

    m.apply_order_event(&mut p, &id, &bare_event("closed"));
    assert!(m.cancel_orders().is_none());
    assert_eq!(p.get_asset("ETH".to_string()), (SCALE as i64, usd(100)));
    assert_eq!(p.get_asset("ZUSD".to_string()), (usd(900), SCALE as i64));

    // A duplicate close is a no-op.
    m.apply_order_event(&mut p, &id, &bare_event("closed"));
    assert_eq!(p.get_asset("ETH".to_string()), (SCALE as i64, usd(100)));
    assert_eq!(p.get_asset("ZUSD".to_string()), (usd(900), SCALE as i64));
}

// Terminal events for ids never seen are benign no-ops.
#[test]
fn terminal_events_for_unknown_ids_are_no_ops() {
    let mut m = market();
    let mut p = underweight_portfolio();
    m.bid_orders.push((
        "OKEEP-1".to_string(),
        RestingOrder { price: usd(100) as u64, volume: SCALE },
    ));

    m.apply_order_event(&mut p, &"OGHOST-1".to_string(), &bare_event("canceled"));
    m.apply_order_event(&mut p, &"OGHOST-2".to_string(), &bare_event("closed"));

    let cancel = m.cancel_orders().unwrap();
    match cancel {
        OrderCommand::Cancel { ids } => assert_eq!(ids, vec!["OKEEP-1".to_string()]),
        _ => panic!("expected a cancel command"),
    }
    assert_eq!(p.get_asset("ZUSD".to_string()), (usd(1000), SCALE as i64));
    assert_eq!(p.get_asset("ETH".to_string()), (0, usd(2000)));
}

#[test]
fn canceled_removes_without_touching_the_ledger() {
    let mut m = market();
    let mut p = underweight_portfolio();
    let id = "OABC-2".to_string();
    m.apply_order_event(&mut p, &id, &open_event("ETH/USD", "sell", "2100", "0.5"));
    assert!(m.cancel_orders().is_some());
    m.apply_order_event(&mut p, &id, &bare_event("canceled"));
    assert!(m.cancel_orders().is_none());
    assert_eq!(p.get_asset("ZUSD".to_string()), (usd(1000), SCALE as i64));
}

// An open event without a descriptor cannot be tracked and is skipped
// without panicking.
#[test]
fn open_event_without_descriptor_is_skipped() {
    let mut m = market();
    let mut p = underweight_portfolio();
    let mut ev = bare_event("open");
    ev.vol = Some("1.0".to_string());
    m.apply_order_event(&mut p, &"ONODESCR-1".to_string(), &ev);
    assert!(m.cancel_orders().is_none());
}

#[test]
fn events_for_other_instruments_are_ignored() {
    let mut m = market();
    let mut p = underweight_portfolio();
    m.apply_order_event(
        &mut p,
        &"OX-1".to_string(),
        &open_event("SOL/USD", "buy", "20", "1.0"),
    );
    assert!(m.cancel_orders().is_none());
}

fn add_prices(r: &[OrderCommand]) -> Vec<(OrderSide, u64)> {
    let mut out = Vec::new();
    for c in r {
        if let OrderCommand::Add { side, price, .. } = c {
            out.push((*side, parse_fixed(price).unwrap()));
        }
    }
    out
}

// Requoting emits one order per side when nothing similar rests, and moves
// the cooldown mark.
#[test]
fn requote_emits_both_sides_when_books_are_empty() {
    let mut m = market();
    m.mid_price = usd(2000) as u64;
    m.decimals = 4;
    let p = underweight_portfolio();
    let r = m.refresh_orders(&p, 1000);
    let adds = add_prices(&r);
    assert_eq!(r.len(), 2);
    assert_eq!(adds.len(), 2);
    assert_eq!(adds[0].0, OrderSide::BUY);
    assert_eq!(adds[1].0, OrderSide::SELL);
    assert!(adds[0].1 < adds[1].1);
    assert_eq!(m.last_order_time, 1000);
}

// A resting order within the similarity tolerance of the new price
// suppresses that side: no new order and no cancel for it.
#[test]
fn similar_resting_orders_suppress_requoting() {
    let mut m = market();
    m.mid_price = usd(2000) as u64;
    m.decimals = 4;
    m.config.order_cooldown_s = 0;
    let p = underweight_portfolio();

    let first = m.refresh_orders(&p, 1000);
    let adds = add_prices(&first);
    assert_eq!(adds.len(), 2);

    m.bid_orders.push((
        "OB-1".to_string(),
        RestingOrder { price: adds[0].1, volume: SCALE },
    ));
    m.ask_orders.push((
        "OA-1".to_string(),
        RestingOrder { price: adds[1].1, volume: SCALE },
    ));

    let second = m.refresh_orders(&p, 2000);
    assert!(second.is_empty());
    // The resting orders were not cancelled.
    assert!(m.cancel_orders().is_some());
}

// Two requote triggers within the cooldown window place at most one batch.
#[test]
fn cooldown_allows_only_one_batch_per_window() {
    let mut m = market();
    m.mid_price = usd(2000) as u64;
    m.decimals = 4;
    let p = underweight_portfolio();

    let first = m.refresh_orders(&p, 1000);
    assert_eq!(first.len(), 2);
    let second = m.refresh_orders(&p, 1299);
    assert!(second.is_empty());
    assert_eq!(m.last_order_time, 1000);
    let third = m.refresh_orders(&p, 1300);
    assert_eq!(third.len(), 2);
}

#[test]
fn no_quotes_without_pressure_or_price() {
    let mut m = market();
    m.decimals = 4;
    let balanced = {
        let mut p = Portfolio::new();
        p.set_asset("ZUSD".to_string(), usd(1000), SCALE as i64);
        p.set_asset("ETH".to_string(), SCALE as i64 / 2, usd(2000));
        p
    };
    // No mid price yet.
    assert!(m.refresh_orders(&underweight_portfolio(), 1000).is_empty());
    // Zero pressure.
    m.mid_price = usd(2000) as u64;
    assert!(m.refresh_orders(&balanced, 1000).is_empty());
}

// Underweight inventory skews the reserve price above the mid price.
#[test]
fn underweight_skews_reserve_price_up() {
    let mut m = market();
    m.mid_price = usd(2000) as u64;
    let p = underweight_portfolio();
    let delta = m.get_target_delta(&p);
    assert!(delta > 0);
    let (reserve, spread) = m.get_ans_params(delta);
    assert!(reserve > m.mid_price);
    assert!(spread >= m.config.min_spread_fp);
}

// With samples 2000 and 2002 the standard deviation is 1, so the estimate
// is 1/2001 of the mid price plus the floor.
#[test]
fn volatility_matches_the_model_exactly() {
    let mut m = market();
    m.mid_price = usd(2000) as u64;
    assert_eq!(m.get_volatility(), m.config.base_volatility_fp);
    m.prices = vec![usd(2000) as u64, usd(2002) as u64];
    // mean 2001, variance 1, stdev 1; 1/2000 of the mid is 50_000 scaled.
    assert_eq!(m.get_volatility(), 50_000 + m.config.base_volatility_fp);
}

#[test]
fn reserve_and_spread_match_the_model_exactly() {
    let mut m = market();
    m.mid_price = usd(2000) as u64;
    // No samples: volatility is the floor 0.0005, so the skew term is
    // 15 * 0.0005^2 = 0.00000375 and the reserve sits 750000 above the mid.
    let (reserve, spread) = m.get_ans_params(1);
    assert_eq!(reserve, usd(2000) as u64 + 750_000);
    assert_eq!(spread, m.config.min_spread_fp);
    let (reserve_down, _) = m.get_ans_params(-1);
    assert_eq!(reserve_down, usd(2000) as u64 - 750_000);
}

#[test]
fn round_price_uses_the_inferred_precision() {
    let mut m = market();
    m.decimals = 2;
    assert_eq!(m.round_price(163_884_500_000), "1638.85");
    assert_eq!(m.round_price(163_884_499_999), "1638.84");
    m.decimals = 0;
    assert_eq!(m.round_price(163_884_500_000), "1639");
}

#[test]
fn cancel_lists_bids_before_asks() {
    let mut m = market();
    m.bid_orders.push(("OB-1".to_string(), RestingOrder { price: 1, volume: 1 }));
    m.ask_orders.push(("OA-1".to_string(), RestingOrder { price: 2, volume: 1 }));
    m.ask_orders.push(("OA-2".to_string(), RestingOrder { price: 3, volume: 1 }));
    match m.cancel_orders().unwrap() {
        OrderCommand::Cancel { ids } => {
            assert_eq!(ids, vec!["OB-1".to_string(), "OA-1".to_string(), "OA-2".to_string()]);
        },
        _ => panic!("expected a cancel command"),
    }
}

// Six-figure prices are ordinary inputs: a quote well above any historic
// bitcoin price parses, initializes the engine and settles a fill.
#[test]
fn six_figure_prices_are_in_range() {
    let mut m = market();
    let t = TickerData {
        a: vec!["250000.5".to_string()],
        b: vec!["249999.5".to_string()],
        v: vec![],
    };
    assert!(m.on_ticker_data(&t, 100));
    assert_eq!(m.mid_price, usd(250_000) as u64);

    let mut p = Portfolio::new();
    p.set_asset("ZUSD".to_string(), usd(1_000_000), SCALE as i64);
    p.set_asset("XBT".to_string(), 0, 0);
    let applied = p.update_pair("XBT/USD".to_string(), SCALE as i64, usd(250_000));
    assert!(applied);
    assert_eq!(p.get_asset("XBT".to_string()), (SCALE as i64, usd(250_000)));
    assert_eq!(p.get_asset("ZUSD".to_string()), (usd(750_000), SCALE as i64));
}

#[test]
fn ticker_initializes_mid_price_and_precision() {
    let mut m = market();
    let t = TickerData {
        a: vec!["2000.5".to_string()],
        b: vec!["1999.5".to_string()],
        v: vec!["100.0".to_string()],
    };
    m.on_ticker_data(&t, 100);
    assert_eq!(m.mid_price, usd(2000) as u64);
    assert_eq!(m.last_price, usd(2000) as u64);
    assert_eq!(m.decimals, 1);
    assert_eq!(m.vol_24hr, 100 * SCALE);
    assert_eq!(m.spreads, vec![50_000i64]);
}

#[test]
fn precision_never_decreases() {
    let mut m = market();
    let t1 = TickerData {
        a: vec!["2000.55".to_string()],
        b: vec!["1999.45".to_string()],
        v: vec![],
    };
    let t2 = TickerData {
        a: vec!["2001".to_string()],
        b: vec!["2000".to_string()],
        v: vec![],
    };
    m.on_ticker_data(&t1, 100);
    assert_eq!(m.decimals, 2);
    m.on_ticker_data(&t2, 200);
    assert_eq!(m.decimals, 2);
}

#[test]
fn heartbeat_is_filtered() {
    let mut m = market();
    let mut p = underweight_portfolio();
    let before_mid = m.mid_price;
    let r = m.on_message(
        &mut p,
        &WSPayload::Heartbeat(Heartbeat { event: "heartbeat".to_string() }),
        100,
    );
    assert!(r.is_empty());
    assert_eq!(m.mid_price, before_mid);
}

#[test]
fn ohlc_moves_the_mid_price_and_marks_the_portfolio() {
    let mut m = market();
    let mut p = underweight_portfolio();
    let fields = vec![
        "1700000000.1".to_string(),
        "1700000005.0".to_string(),
        "1999.0".to_string(),
        "2001.0".to_string(),
        "1998.0".to_string(),
        "2000.5".to_string(),
        "2000.1".to_string(),
        "12.5".to_string(),
    ];
    let msg = WSPayload::PublicMessage(PublicMessage {
        channel_id: 42,
        data: PublicData::OHLC(fields),
        channel_name: "ohlc-5".to_string(),
        pair: "ETH/USD".to_string(),
    });
    let r = m.on_message(&mut p, &msg, 1000);
    assert_eq!(m.mid_price, parse_fixed("2000.5").unwrap());
    assert_eq!(m.prices, vec![parse_fixed("2000.5").unwrap()]);
    // The portfolio's reference price was refreshed from market data.
    assert_eq!(p.get_asset("ETH".to_string()).1, parse_fixed("2000.5").unwrap() as i64);
    // The engine is active and underweight: it quotes.
    assert_eq!(r.len(), 2);
}

#[test]
fn batched_order_events_apply_in_order() {
    let mut m = market();
    let mut p = underweight_portfolio();
    let id = "OBATCH-1".to_string();
    let batch = OpenOrders {
        orders: vec![
            vec![(id.clone(), open_event("ETH/USD", "buy", "100", "1.0"))],
            vec![(id.clone(), bare_event("closed"))],
        ],
        channel_name: "openOrders".to_string(),
        sequence: Sequence { sequence: 1 },
    };
    m.handle_order_update(&mut p, &batch);
    assert!(m.cancel_orders().is_none());
    assert_eq!(p.get_asset("ETH".to_string()), (SCALE as i64, usd(100)));
    assert_eq!(p.get_asset("ZUSD".to_string()), (usd(900), SCALE as i64));
}
