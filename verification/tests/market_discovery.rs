use polymarket_arb_bot::market::{
    extract_tokens, first_listed, market_of_event, market_side, select_active_markets, sort_by_end_time,
    BtcDiscovery, BtcMarket, GammaEvent, GammaMarket, Side, TokenIdsField,
};
use polymarket_arb_bot::time::Timestamp;

fn ts(secs: i64) -> Timestamp {
    Timestamp { secs, nanos: 0 }
}

fn market(question: &str, slug: &str, ids: Option<TokenIdsField>) -> GammaMarket {
    GammaMarket {
        question: Some(question.to_string()),
        slug: Some(slug.to_string()),
        clob_token_ids: ids,
    }
}

fn list(ids: &[&str]) -> Option<TokenIdsField> {
    Some(TokenIdsField::List(ids.iter().map(|s| Some(s.to_string())).collect()))
}

fn event(id: &str, slug: &str, end: &str, markets: Vec<GammaMarket>) -> GammaEvent {
    GammaEvent {
        id: id.to_string(),
        slug: Some(slug.to_string()),
        title: Some(format!("Title {}", id)),
        end_date: Some(end.to_string()),
        markets: Some(markets),
    }
}

fn up_down(up: &str, down: &str) -> Vec<GammaMarket> {
    vec![
        market("Bitcoin Up?", "btc-up", list(&[up, "x"])),
        market("Bitcoin Down?", "btc-down", list(&[down, "y"])),
    ]
}

// 2024-01-01T00:00:00Z
const T0: i64 = 1_704_067_200;

#[test]
fn side_prefers_up_over_down() {
    assert_eq!(market_side("will it go up or down", ""), Side::Up);
    assert_eq!(market_side("goes down", "x"), Side::Down);
    assert_eq!(market_side("", "btc-updown"), Side::Neither);
    assert_eq!(market_side("", "btc-updown-15m-1-up"), Side::Up);
    assert_eq!(market_side("", "btc-updown-15m-1-down"), Side::Down);
    assert_eq!(market_side("lookup", "downtown"), Side::Neither);
    assert_eq!(market_side("sideways", "flat"), Side::Neither);
}

#[test]
fn tokens_by_keyword() {
    let ms = vec![
        market("Down?", "d", list(&["D1", "D2"])),
        market("Up?", "u", list(&["U1", "U2"])),
    ];
    assert_eq!(extract_tokens(&ms), (Some("U1".to_string()), Some("D1".to_string())));
}

#[test]
fn tokens_keyword_is_case_insensitive() {
    let ms = vec![
        market("BITCOIN UP", "A", list(&["U"])),
        market("BITCOIN DOWN", "B", list(&["D"])),
    ];
    assert_eq!(extract_tokens(&ms), (Some("U".to_string()), Some("D".to_string())));
}

#[test]
fn tokens_positional_fallback() {
    let ms = vec![
        market("first", "a", list(&["T1"])),
        market("second", "b", list(&["T2"])),
    ];
    assert_eq!(extract_tokens(&ms), (Some("T1".to_string()), Some("T2".to_string())));
}

#[test]
fn tokens_fallback_fills_only_missing_leg() {
    // "Up or Down" names both words, so both markets count as Up; the last one wins Up,
    // and Down falls back to the first listed token id that Up does not hold.
    let ms = vec![
        market("Up or Down 1", "a", list(&["T1"])),
        market("Up or Down 2", "b", list(&["T2"])),
    ];
    assert_eq!(extract_tokens(&ms), (Some("T2".to_string()), Some("T1".to_string())));
}

#[test]
fn tokens_from_up_and_down_slugs() {
    let ms = vec![
        GammaMarket { question: None, slug: Some("btc-updown-15m-1-up".to_string()), clob_token_ids: list(&["a"]) },
        GammaMarket { question: None, slug: Some("btc-updown-15m-1-down".to_string()), clob_token_ids: list(&["b"]) },
    ];
    assert_eq!(extract_tokens(&ms), (Some("a".to_string()), Some("b".to_string())));
}

#[test]
fn fallback_does_not_reuse_the_other_leg() {
    let ms = vec![
        market("Down?", "d", list(&["D1"])),
        market("unmarked", "x", list(&["T2"])),
    ];
    assert_eq!(extract_tokens(&ms), (Some("T2".to_string()), Some("D1".to_string())));
    let only_down = vec![market("Down?", "d", list(&["D1"])), market("unmarked", "x", None)];
    assert_eq!(extract_tokens(&only_down), (None, Some("D1".to_string())));
}

#[test]
fn tokens_from_json_encoded_text() {
    let ms = vec![
        market("up", "", Some(TokenIdsField::Text("[\"111\", \"222\"]".to_string()))),
        market("down", "", Some(TokenIdsField::Text("[\"333\"]".to_string()))),
    ];
    assert_eq!(extract_tokens(&ms), (Some("111".to_string()), Some("333".to_string())));
}

#[test]
fn tokens_rejects_bad_json_and_non_strings() {
    let ms = vec![
        market("up", "", Some(TokenIdsField::Text("not json".to_string()))),
        market("down", "", Some(TokenIdsField::List(vec![None, Some("z".to_string())]))),
        market("other", "", Some(TokenIdsField::Other)),
    ];
    assert_eq!(extract_tokens(&ms), (None, None));
}

#[test]
fn first_listed_takes_first() {
    assert_eq!(first_listed(Some(vec!["a".to_string(), "b".to_string()])), Some("a".to_string()));
    assert_eq!(first_listed(Some(vec![])), None);
    assert_eq!(first_listed(None), None);
}

#[test]
fn selects_live_btc_markets_sorted() {
    let events = vec![
        event("late", "btc-updown-15m-3", "2024-01-01T00:45:00Z", up_down("U3", "D3")),
        event("expired", "btc-updown-15m-0", "2023-12-31T23:45:00Z", up_down("U0", "D0")),
        event("other", "eth-updown-15m-1", "2024-01-01T00:15:00Z", up_down("E1", "E2")),
        event("early", "btc-updown-15m-1", "2024-01-01T00:15:00Z", up_down("U1", "D1")),
        event("baddate", "btc-updown-15m-2", "tomorrow", up_down("U2", "D2")),
    ];
    let out = select_active_markets(&events, ts(T0));
    let ids: Vec<&str> = out.iter().map(|m| m.event_id.as_str()).collect();
    assert_eq!(ids, vec!["early", "late"]);
    assert_eq!(out[0].end_time, ts(T0 + 900));
    assert_eq!(out[0].up_token_id, "U1");
    assert_eq!(out[0].down_token_id, "D1");
    assert_eq!(out[0].title, "Title early");
    assert_eq!(out[0].slug, "btc-updown-15m-1");
}

#[test]
fn end_date_with_offset_is_converted_to_utc() {
    let events = vec![event("e", "btc-updown-15m-9", "2024-01-01T01:15:30.5+01:00", up_down("U", "D"))];
    let out = select_active_markets(&events, ts(T0));
    assert_eq!(out.len(), 1);
    assert_eq!(out[0].end_time, Timestamp { secs: T0 + 930, nanos: 500_000_000 });
}

#[test]
fn market_ending_now_is_not_active() {
    let events = vec![event("e", "btc-updown-15m-9", "2024-01-01T00:00:00Z", up_down("U", "D"))];
    assert!(select_active_markets(&events, ts(T0)).is_empty());
}

#[test]
fn event_needs_two_markets_and_both_tokens() {
    let one = event("one", "btc-updown-15m-1", "2024-01-01T00:15:00Z", vec![market("Up", "u", list(&["U"]))]);
    let no_tokens = event(
        "none",
        "btc-updown-15m-2",
        "2024-01-01T00:15:00Z",
        vec![market("Up", "u", None), market("Down", "d", None)],
    );
    let mut no_markets = event("nom", "btc-updown-15m-3", "2024-01-01T00:15:00Z", vec![]);
    no_markets.markets = None;
    assert!(select_active_markets(&vec![one, no_tokens, no_markets], ts(T0)).is_empty());
}

#[test]
fn missing_title_is_empty() {
    let mut e = event("e", "btc-updown-15m-1", "2024-01-01T00:15:00Z", up_down("U", "D"));
    e.title = None;
    let out = select_active_markets(&vec![e], ts(T0));
    assert_eq!(out[0].title, "");
}

fn bm(id: &str, end: i64) -> BtcMarket {
    BtcMarket {
        event_id: id.to_string(),
        slug: String::new(),
        title: String::new(),
        end_time: ts(end),
        up_token_id: String::new(),
        down_token_id: String::new(),
    }
}

#[test]
fn sort_is_stable() {
    let v = vec![bm("a", 30), bm("b", 10), bm("c", 30), bm("d", 20), bm("e", 10)];
    let out = sort_by_end_time(v);
    let ids: Vec<&str> = out.iter().map(|m| m.event_id.as_str()).collect();
    assert_eq!(ids, vec!["b", "e", "d", "a", "c"]);
}

#[test]
fn sort_orders_by_nanos_within_second() {
    let mut a = bm("a", 5);
    a.end_time.nanos = 7;
    let b = bm("b", 5);
    let out = sort_by_end_time(vec![a, b]);
    assert_eq!(out[0].event_id, "b");
}

#[test]
fn discovery_events_url() {
    let d = BtcDiscovery::new("https://gamma-api.polymarket.com".to_string());
    assert_eq!(d.events_url(), "https://gamma-api.polymarket.com/events?limit=200");
}

#[test]
fn discovery_keeps_future_markets() {
    let d = BtcDiscovery::new("u".to_string());
    let events = vec![
        event("future", "btc-updown-15m-1", "2999-01-01T00:00:00Z", up_down("U", "D")),
        event("past", "btc-updown-15m-2", "2001-01-01T00:00:00Z", up_down("U", "D")),
    ];
    let (out, now) = d.active_markets(&events);
    assert!(now.secs > 1_600_000_000);
    assert_eq!(out.len(), 1);
    assert_eq!(out[0].event_id, "future");
}

#[test]
fn cloned_market_is_equal() {
    let m = bm("a", 1);
    let c = m.clone();
    assert_eq!(c.event_id, "a");
    assert_eq!(c.end_time, m.end_time);
}

#[test]
fn market_of_event_uses_given_end() {
    let e = event("e", "btc-updown-15m-1", "not a date", up_down("U", "D"));
    let m = market_of_event(&e, Some(ts(T0 + 60)), ts(T0)).expect("live market");
    assert_eq!(m.end_time, ts(T0 + 60));
    assert_eq!(m.event_id, "e");
    assert!(market_of_event(&e, None, ts(T0)).is_none());
    assert!(market_of_event(&e, Some(ts(T0)), ts(T0)).is_none());
    let other = event("o", "eth-15m", "x", up_down("U", "D"));
    assert!(market_of_event(&other, Some(ts(T0 + 60)), ts(T0)).is_none());
}
