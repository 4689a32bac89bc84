use polymarket_arb_bot::config::{
    default_clob_api_url, default_gamma_api_url, default_simulation_mode,
    default_market_refresh_interval_secs, default_min_seconds_before_expiry,
    default_price_poll_interval_ms, default_shares, PolymarketConfig,
};
use polymarket_arb_bot::market::BtcMarket;
use polymarket_arb_bot::redeem::{normalize_condition_id, plan_redeem, RedeemError, RedeemPlan, RedeemTally};
use polymarket_arb_bot::strategy::{
    find_tradable, next_run_step, plan_run_step, refresh_due, refresh_due_at, seconds_left, CycleAction, MarketCycle, Quote,
    RunStep,
};
use polymarket_arb_bot::time::Timestamp;

fn ts(secs: i64) -> Timestamp {
    Timestamp { secs, nanos: 0 }
}

fn bm(id: &str, end: i64) -> BtcMarket {
    BtcMarket {
        event_id: id.to_string(),
        slug: String::new(),
        title: String::new(),
        end_time: ts(end),
        up_token_id: String::new(),
        down_token_id: String::new(),
    }
}

#[test]
fn run_step_after_fetch_error_and_empty_list() {
    assert_eq!(plan_run_step(None, ts(0), 120), RunStep::RetryAfterError);
    assert_eq!(plan_run_step(Some(&vec![]), ts(0), 120), RunStep::NoMarkets);
}

#[test]
fn run_step_picks_first_market_with_enough_time() {
    let ms = vec![bm("a", 100), bm("b", 121), bm("c", 500)];
    assert_eq!(plan_run_step(Some(&ms), ts(0), 120), RunStep::Trade { index: 1 });
    assert_eq!(find_tradable(&ms, ts(0), 120), Some(1));
    // exactly min_secs left is not enough
    assert_eq!(find_tradable(&vec![bm("a", 120)], ts(0), 120), None);
}

#[test]
fn run_step_when_all_expire_soon() {
    let ms = vec![bm("a", 50), bm("b", 60)];
    assert_eq!(plan_run_step(Some(&ms), ts(0), 120), RunStep::AllExpireSoon { next_expiry: ts(50) });
}

#[test]
fn run_step_at_current_time() {
    let ms = vec![bm("old", 0), bm("future", 32_503_680_000)];
    assert_eq!(next_run_step(Some(&ms), 120), RunStep::Trade { index: 1 });
    assert_eq!(next_run_step(None, 120), RunStep::RetryAfterError);
}

#[test]
fn seconds_left_reads_the_clock() {
    assert!(seconds_left(&ts(0)) < -1_600_000_000);
    assert!(seconds_left(&ts(32_503_680_000)) > 20_000_000_000);
}

#[test]
fn simulated_cycle_enters_once() {
    let mut c = MarketCycle::new(true, 0);
    assert_eq!(c.on_tick(300, Quote::Missing), CycleAction::PriceUnavailable);
    assert_eq!(c.on_tick(300, Quote::Priced { below_threshold: false }), CycleAction::Hold);
    assert_eq!(c.on_tick(200, Quote::Priced { below_threshold: true }), CycleAction::EnterSimulated);
    assert!(c.is_holding());
    assert_eq!(c.on_tick(100, Quote::Priced { below_threshold: true }), CycleAction::Hold);
    assert_eq!(c.on_tick(0, Quote::Priced { below_threshold: true }), CycleAction::Finish { bought: true });
}

#[test]
fn live_cycle_needs_both_orders() {
    let mut c = MarketCycle::new(false, 0);
    assert_eq!(c.on_tick(200, Quote::Priced { below_threshold: true }), CycleAction::PlaceOrders);
    assert!(!c.orders_settled(true, false));
    assert!(!c.is_holding());
    assert_eq!(c.on_tick(150, Quote::Priced { below_threshold: true }), CycleAction::PlaceOrders);
    assert!(c.orders_settled(true, true));
    assert!(c.is_holding());
    assert_eq!(c.on_tick(100, Quote::Priced { below_threshold: true }), CycleAction::Hold);
}

#[test]
fn cycle_does_not_enter_too_close_to_expiry() {
    let mut c = MarketCycle::new(false, 120);
    assert_eq!(c.on_tick(5, Quote::Priced { below_threshold: true }), CycleAction::Hold);
    assert_eq!(c.on_tick(119, Quote::Priced { below_threshold: true }), CycleAction::Hold);
    assert_eq!(c.on_tick(120, Quote::Priced { below_threshold: true }), CycleAction::PlaceOrders);
    let mut s = MarketCycle::new(true, 120);
    assert_eq!(s.on_tick(60, Quote::Priced { below_threshold: true }), CycleAction::Hold);
    assert!(!s.is_holding());
}

#[test]
fn market_list_refresh_interval() {
    assert!(refresh_due_at(None, ts(0), 60));
    assert!(!refresh_due_at(Some(ts(100)), ts(159), 60));
    assert!(refresh_due_at(Some(ts(100)), ts(160), 60));
    assert!(!refresh_due_at(Some(Timestamp { secs: 100, nanos: 500_000_000 }), ts(160), 60));
    assert!(refresh_due(Some(ts(0)), 60));
    assert!(!refresh_due(Some(ts(32_503_680_000)), 60));
    assert!(refresh_due(None, 60));
}

#[test]
fn cycle_finishes_without_entry() {
    let mut c = MarketCycle::new(false, 0);
    assert_eq!(c.on_tick(-5, Quote::Missing), CycleAction::Finish { bought: false });
}

#[test]
fn condition_ids_get_prefix() {
    assert_eq!(normalize_condition_id("abc"), "0xabc");
    assert_eq!(normalize_condition_id("0xabc"), "0xabc");
    assert_eq!(normalize_condition_id(""), "0x");
    assert_eq!(normalize_condition_id("0X1"), "0x0X1");
    let once = normalize_condition_id("ff");
    assert_eq!(normalize_condition_id(&once), once);
}

#[test]
fn redeem_plans() {
    let none: Option<String> = None;
    assert!(matches!(plan_redeem(&none, &Some("1".to_string())), Err(RedeemError::MissingProxyWallet)));
    let proxy = Some("0xwallet".to_string());
    match plan_redeem(&proxy, &Some("12".to_string())) {
        Ok(RedeemPlan::Single { condition_id }) => assert_eq!(condition_id, "0x12"),
        _ => panic!("expected a single condition"),
    }
    match plan_redeem(&proxy, &None) {
        Ok(RedeemPlan::AllRedeemable { proxy }) => assert_eq!(proxy, "0xwallet"),
        _ => panic!("expected all redeemable positions"),
    }
}

#[test]
fn tally_counts_outcomes() {
    let mut t = RedeemTally::new();
    t.record(true);
    t.record(false);
    t.record(true);
    assert_eq!((t.succeeded, t.failed), (2, 1));
}

#[test]
fn config_defaults() {
    assert_eq!(default_shares(), "100");
    assert_eq!(default_price_poll_interval_ms(), 5_000);
    assert_eq!(default_market_refresh_interval_secs(), 60);
    assert_eq!(default_min_seconds_before_expiry(), 120);
    assert!(default_simulation_mode());
    assert_eq!(default_gamma_api_url(), "https://gamma-api.polymarket.com");
    assert_eq!(default_clob_api_url(), "https://clob.polymarket.com");
    let p = PolymarketConfig::default();
    assert_eq!(p.gamma_api_url, "https://gamma-api.polymarket.com");
    assert_eq!(p.clob_api_url, "https://clob.polymarket.com");
    assert!(p.api_key.is_none() && p.private_key.is_none() && p.signature_type.is_none());
}
