use rebalancer::decimal::SCALE;
use rebalancer::portfolio::{pair_asset, Portfolio, DELTA_MAX};

fn usd(amount_whole: i64) -> i64 {
    amount_whole * SCALE as i64
}

#[test]
fn absent_asset_reads_zero() {
    let p = Portfolio::new();
    assert_eq!(p.get_asset("ETH".to_string()), (0, 0));
    assert_eq!(p.get_pair("ETH/USD".to_string()), (0, 0));
}

#[test]
fn pair_asset_strips_usd_suffix() {
    assert_eq!(pair_asset("ETH/USD"), "ETH");
    assert_eq!(pair_asset("XBT/USD"), "XBT");
    assert_eq!(pair_asset("ETHUSDT"), "ETHUSDT");
    assert_eq!(pair_asset("ZUSD"), "ZUSD");
}

#[test]
fn set_and_get() {
    let mut p = Portfolio::new();
    p.set_asset("ETH".to_string(), usd(2), usd(2000));
    assert_eq!(p.get_asset("ETH".to_string()), (usd(2), usd(2000)));
    p.set_asset("ETH".to_string(), usd(3), usd(1900));
    assert_eq!(p.get_asset("ETH".to_string()), (usd(3), usd(1900)));
}

// A portfolio of 1000 quote units and an empty base position reports the
// base asset fully underweight: the pressure signal sits at its positive cap.
#[test]
fn full_underweight_reports_max_pressure() {
    let mut p = Portfolio::new();
    p.set_asset("ZUSD".to_string(), usd(1000), SCALE as i64);
    p.set_asset("ETH".to_string(), 0, usd(2000));
    let delta = p.get_pair_target_delta("ETH/USD".to_string());
    assert_eq!(delta, DELTA_MAX);
}

#[test]
fn zero_total_value_reports_zero_pressure() {
    let mut p = Portfolio::new();
    p.set_asset("ETH".to_string(), 0, usd(2000));
    assert_eq!(p.get_asset_target_delta("ETH".to_string()), 0);
    assert_eq!(p.get_asset_target_delta("ABSENT".to_string()), 0);
}

#[test]
fn balanced_portfolio_reports_zero_pressure() {
    let mut p = Portfolio::new();
    p.set_asset("ZUSD".to_string(), usd(1000), SCALE as i64);
    p.set_asset("ETH".to_string(), SCALE as i64 / 2, usd(2000));
    // Both positions are worth 1000 quote units: deviation is zero.
    assert_eq!(p.get_asset_target_delta("ETH".to_string()), 0);
    assert_eq!(p.get_asset_target_delta("ZUSD".to_string()), 0);
}

// A buy fill moves exactly the traded volume into the base asset and
// exactly volume times price out of the quote currency.
#[test]
fn buy_fill_is_conservative() {
    let mut p = Portfolio::new();
    p.set_asset("ZUSD".to_string(), usd(1000), SCALE as i64);
    p.set_asset("ETH".to_string(), 0, 0);
    p.set_asset("DOT".to_string(), usd(5), usd(7));
    let applied = p.update_pair("ETH/USD".to_string(), SCALE as i64, usd(100));
    assert!(applied);
    assert_eq!(p.get_asset("ETH".to_string()), (SCALE as i64, usd(100)));
    assert_eq!(p.get_asset("ZUSD".to_string()), (usd(900), SCALE as i64));
    // No other asset is affected.
    assert_eq!(p.get_asset("DOT".to_string()), (usd(5), usd(7)));
}

#[test]
fn sell_fill_is_conservative() {
    let mut p = Portfolio::new();
    p.set_asset("ZUSD".to_string(), usd(900), SCALE as i64);
    p.set_asset("ETH".to_string(), SCALE as i64, usd(100));
    let applied = p.update_pair("ETH/USD".to_string(), -(SCALE as i64), usd(110));
    assert!(applied);
    assert_eq!(p.get_asset("ETH".to_string()), (0, usd(110)));
    assert_eq!(p.get_asset("ZUSD".to_string()), (usd(1010), SCALE as i64));
}

#[test]
fn fill_on_untracked_asset_changes_nothing() {
    let mut p = Portfolio::new();
    p.set_asset("ZUSD".to_string(), usd(1000), SCALE as i64);
    let applied = p.update_pair("ETH/USD".to_string(), SCALE as i64, usd(100));
    assert!(!applied);
    assert_eq!(p.get_asset("ZUSD".to_string()), (usd(1000), SCALE as i64));
}

#[test]
fn mark_price_updates_only_the_price() {
    let mut p = Portfolio::new();
    p.set_asset("ETH".to_string(), usd(2), usd(2000));
    p.set_pair_price("ETH/USD".to_string(), usd(2100));
    assert_eq!(p.get_asset("ETH".to_string()), (usd(2), usd(2100)));
    // A pair without the quote suffix is left alone.
    p.set_pair_price("ETH".to_string(), usd(1));
    assert_eq!(p.get_asset("ETH".to_string()), (usd(2), usd(2100)));
}

#[test]
fn from_balances_normalizes_and_skips() {
    let balances = vec![
        ("ZUSD".to_string(), "50000.0".to_string()),
        ("XETH".to_string(), "2.5".to_string()),
        ("DOT".to_string(), "0".to_string()),
        ("BAD".to_string(), "x1".to_string()),
    ];
    let p = Portfolio::from_balances(balances);
    assert_eq!(p.get_asset("ZUSD".to_string()), (usd(50_000), SCALE as i64));
    assert_eq!(p.get_asset("ETH".to_string()), (250_000_000, 0));
    assert_eq!(p.get_asset("DOT".to_string()), (0, 0));
    assert_eq!(p.get_asset("BAD".to_string()), (0, 0));
}
